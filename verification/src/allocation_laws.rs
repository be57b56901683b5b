//! What holds of every allocation.
use vstd::prelude::*;
use vstd::multiset::Multiset;
use crate::allocation::{
    allocation_pairs, final_lists, need, kept, overflow_of, skill_rank, insert_desc,
    lemma_insert_desc_multiset, first_pass, flatten_pairs, lemma_sort_desc_multiset, neediest,
    pairs_of, preferring_indices, process_part, redistribute, run_parts, sort_desc, target_of,
};
use crate::section::{count_preferring, Singer};
use crate::voice::{part_at, VoicePart};

verus! {

broadcast use vstd::multiset::group_multiset_axioms;

/// The positions `0..n` in order.
pub open spec fn positions(n: nat) -> Seq<usize> {
    Seq::new(n, |i: int| i as usize)
}

/// The singer of each (singer, part) pair.
pub open spec fn singers_of(pairs: Seq<(usize, VoicePart)>) -> Seq<usize> {
    pairs.map_values(|x: (usize, VoicePart)| x.0)
}

/// All singers held in the four lists of a state.
pub open spec fn lists_multiset(st: Seq<Seq<usize>>) -> Multiset<usize> {
    st[0].to_multiset().add(st[1].to_multiset()).add(st[2].to_multiset()).add(
        st[3].to_multiset(),
    )
}

/// The four lists of a state, one after the other, for the first `n` parts.
pub open spec fn concat_lists(st: Seq<Seq<usize>>, n: nat) -> Seq<usize>
    decreases n,
{
    if n == 0 {
        Seq::empty()
    } else {
        concat_lists(st, (n - 1) as nat) + st[n - 1]
    }
}

proof fn lemma_first_pass_n(s: Seq<Singer>, n: nat)
    requires
        n <= s.len(),
    ensures
        preferring_indices(s, VoicePart::Soprano, n).to_multiset().add(
            preferring_indices(s, VoicePart::Alto, n).to_multiset(),
        ).add(preferring_indices(s, VoicePart::Tenor, n).to_multiset()).add(
            preferring_indices(s, VoicePart::Bass, n).to_multiset(),
        ) == positions(n).to_multiset(),
    decreases n,
{
    broadcast use vstd::seq_lib::group_to_multiset_ensures;
    if n == 0 {
        assert(positions(0) =~= Seq::<usize>::empty());
        assert(preferring_indices(s, VoicePart::Soprano, 0).to_multiset() =~= Multiset::empty());
        assert(preferring_indices(s, VoicePart::Alto, 0).to_multiset() =~= Multiset::empty());
        assert(preferring_indices(s, VoicePart::Tenor, 0).to_multiset() =~= Multiset::empty());
        assert(preferring_indices(s, VoicePart::Bass, 0).to_multiset() =~= Multiset::empty());
        assert(positions(0).to_multiset() =~= Multiset::empty());
        assert(Multiset::<usize>::empty().add(Multiset::empty()).add(Multiset::empty()).add(
            Multiset::empty(),
        ) =~= Multiset::empty());
    } else {
        lemma_first_pass_n(s, (n - 1) as nat);
        assert(positions(n) =~= positions((n - 1) as nat).push((n - 1) as usize));
        let x = (n - 1) as usize;
        let a = preferring_indices(s, VoicePart::Soprano, (n - 1) as nat).to_multiset();
        let b = preferring_indices(s, VoicePart::Alto, (n - 1) as nat).to_multiset();
        let c = preferring_indices(s, VoicePart::Tenor, (n - 1) as nat).to_multiset();
        let d = preferring_indices(s, VoicePart::Bass, (n - 1) as nat).to_multiset();
        let a1 = preferring_indices(s, VoicePart::Soprano, n).to_multiset();
        let b1 = preferring_indices(s, VoicePart::Alto, n).to_multiset();
        let c1 = preferring_indices(s, VoicePart::Tenor, n).to_multiset();
        let d1 = preferring_indices(s, VoicePart::Bass, n).to_multiset();
        assert(a1.add(b1).add(c1).add(d1) =~= a.add(b).add(c).add(d).insert(x));
    }
}

/// The first pass places every singer once.
pub proof fn lemma_first_pass_multiset(s: Seq<Singer>)
    ensures
        lists_multiset(first_pass(s)) == positions(s.len()).to_multiset(),
{
    lemma_first_pass_n(s, s.len());
}

/// Adding a singer to one list adds it to the state.
proof fn lemma_push_multiset(st: Seq<Seq<usize>>, q: int, x: usize)
    requires
        st.len() == 4,
        0 <= q < 4,
    ensures
        lists_multiset(st.update(q, st[q].push(x))) == lists_multiset(st).insert(x),
{
    broadcast use vstd::seq_lib::group_to_multiset_ensures;
    let st1 = st.update(q, st[q].push(x));
    assert(lists_multiset(st1) =~= lists_multiset(st).insert(x));
}

/// Replacing one list by a list that, with `m`, holds the same singers.
proof fn lemma_replace_multiset(st: Seq<Seq<usize>>, q: int, l: Seq<usize>, m: Multiset<usize>)
    requires
        st.len() == 4,
        0 <= q < 4,
        l.to_multiset().add(m) == st[q].to_multiset(),
    ensures
        lists_multiset(st.update(q, l)).add(m) == lists_multiset(st),
{
    let st1 = st.update(q, l);
    assert(lists_multiset(st1).add(m) =~= lists_multiset(st));
}

/// Redistribution adds exactly the redistributed singers.
pub proof fn lemma_redistribute_multiset(
    st: Seq<Seq<usize>>,
    k: int,
    overflow: Seq<usize>,
    targets: Map<VoicePart, usize>,
)
    requires
        st.len() == 4,
        0 <= k < 4,
    ensures
        lists_multiset(redistribute(st, k, overflow, targets)) == lists_multiset(st).add(
            overflow.to_multiset(),
        ),
        redistribute(st, k, overflow, targets).len() == 4,
    decreases overflow.len(),
{
    broadcast use vstd::seq_lib::group_to_multiset_ensures;
    if overflow.len() == 0 {
        assert(overflow.to_multiset() =~= Multiset::empty());
        assert(lists_multiset(st).add(Multiset::empty()) =~= lists_multiset(st));
    } else {
        lemma_redistribute_multiset(st, k, overflow.drop_last(), targets);
        let st1 = redistribute(st, k, overflow.drop_last(), targets);
        let q = neediest(st1, k, targets);
        assert(0 <= q < 4);
        lemma_push_multiset(st1, q, overflow.last());
        assert(overflow.drop_last().push(overflow.last()) =~= overflow);
        assert(lists_multiset(st).add(overflow.drop_last().to_multiset()).insert(overflow.last())
            =~= lists_multiset(st).add(overflow.to_multiset()));
    }
}

/// Visiting a part moves singers between lists but loses or adds none.
pub proof fn lemma_process_part_multiset(
    st: Seq<Seq<usize>>,
    k: int,
    targets: Map<VoicePart, usize>,
    s: Seq<Singer>,
)
    requires
        st.len() == 4,
        0 <= k < 4,
    ensures
        lists_multiset(process_part(st, k, targets, s)) == lists_multiset(st),
        process_part(st, k, targets, s).len() == 4,
{
    if st[k].len() > target_of(targets, part_at(k)) {
        let sorted = sort_desc(st[k], s);
        let t = target_of(targets, part_at(k));
        lemma_sort_desc_multiset(st[k], s);
        assert(sorted.take(t) + sorted.skip(t) =~= sorted);
        vstd::seq_lib::lemma_multiset_commutative(sorted.take(t), sorted.skip(t));
        lemma_replace_multiset(st, k, sorted.take(t), sorted.skip(t).to_multiset());
        lemma_redistribute_multiset(st.update(k, sorted.take(t)), k, sorted.skip(t), targets);
    }
}

/// Every state of the allocation holds each singer exactly once.
pub proof fn lemma_run_parts_multiset(s: Seq<Singer>, targets: Map<VoicePart, usize>, n: nat)
    requires
        n <= 4,
    ensures
        lists_multiset(run_parts(s, targets, n)) == positions(s.len()).to_multiset(),
        run_parts(s, targets, n).len() == 4,
    decreases n,
{
    if n == 0 {
        lemma_first_pass_multiset(s);
    } else {
        lemma_run_parts_multiset(s, targets, (n - 1) as nat);
        lemma_process_part_multiset(run_parts(s, targets, (n - 1) as nat), n - 1, targets, s);
    }
}

proof fn lemma_flatten_singers(st: Seq<Seq<usize>>, n: nat)
    ensures
        singers_of(flatten_pairs(st, n)) == concat_lists(st, n),
    decreases n,
{
    if n > 0 {
        lemma_flatten_singers(st, (n - 1) as nat);
        let a = flatten_pairs(st, (n - 1) as nat);
        let b = pairs_of(st[n - 1], n - 1);
        assert(singers_of(b) =~= st[n - 1]);
        assert(singers_of(a + b) =~= singers_of(a) + singers_of(b));
    }
}

/// Every singer is allocated exactly once: the singers of the result are a
/// permutation of the positions of the input.
pub proof fn law_every_singer_allocated_once(s: Seq<Singer>, targets: Map<VoicePart, usize>)
    ensures
        singers_of(allocation_pairs(s, targets)).to_multiset() == positions(s.len()).to_multiset(),
        allocation_pairs(s, targets).len() == s.len(),
{
    broadcast use vstd::seq_lib::group_to_multiset_ensures;
    let st = final_lists(s, targets);
    lemma_run_parts_multiset(s, targets, 4);
    lemma_flatten_singers(st, 4);
    assert(concat_lists(st, 4) == st[0] + st[1] + st[2] + st[3]) by {
        assert(concat_lists(st, 0) =~= Seq::<usize>::empty());
        assert(concat_lists(st, 1) =~= st[0]);
        assert(concat_lists(st, 2) == st[0] + st[1]);
        assert(concat_lists(st, 3) == st[0] + st[1] + st[2]);
    }
    vstd::seq_lib::lemma_multiset_commutative(st[0], st[1]);
    vstd::seq_lib::lemma_multiset_commutative(st[0] + st[1], st[2]);
    vstd::seq_lib::lemma_multiset_commutative(st[0] + st[1] + st[2], st[3]);
    assert(singers_of(allocation_pairs(s, targets)).to_multiset().len()
        == positions(s.len()).to_multiset().len());
    assert(singers_of(allocation_pairs(s, targets)).len() == positions(s.len()).len());
}

proof fn lemma_preferring_len(s: Seq<Singer>, p: VoicePart, n: nat)
    requires
        n <= s.len(),
        s.len() <= usize::MAX,
    ensures
        preferring_indices(s, p, n).len() == count_preferring(s.take(n as int), p),
        forall|m: int|
            0 <= m < preferring_indices(s, p, n).len() ==> {
                let i = #[trigger] preferring_indices(s, p, n)[m];
                i < n && s[i as int].preferred_part == p
            },
    decreases n,
{
    if n > 0 {
        lemma_preferring_len(s, p, (n - 1) as nat);
        assert(s.take(n as int).drop_last() =~= s.take(n - 1));
        let prev = preferring_indices(s, p, (n - 1) as nat);
        let cur = preferring_indices(s, p, n);
        assert forall|m: int| 0 <= m < cur.len() implies {
            let i = #[trigger] cur[m];
            i < n && s[i as int].preferred_part == p
        } by {
            if m < prev.len() {
                assert(cur[m] == prev[m]);
                assert(prev[m] < n - 1);
            } else {
                assert(s[n - 1].preferred_part == p);
                assert(cur == prev.push((n - 1) as usize));
                assert(cur[m] == n - 1);
            }
        }
    }
}

/// Whether a (singer, part) pair puts the singer in its preferred part.
pub open spec fn in_preferred_part(s: Seq<Singer>, x: (usize, VoicePart)) -> bool {
    x.0 < s.len() && s[x.0 as int].preferred_part == x.1
}

proof fn lemma_no_overflow_run(s: Seq<Singer>, targets: Map<VoicePart, usize>, n: nat)
    requires
        n <= 4,
        s.len() <= usize::MAX,
        forall|p: VoicePart| count_preferring(s, p) <= #[trigger] target_of(targets, p),
    ensures
        run_parts(s, targets, n) == first_pass(s),
    decreases n,
{
    if n > 0 {
        lemma_no_overflow_run(s, targets, (n - 1) as nat);
        let k = n - 1;
        let p = part_at(k);
        lemma_preferring_len(s, p, s.len());
        assert(s.take(s.len() as int) =~= s);
        assert(first_pass(s)[k] == preferring_indices(s, p, s.len()));
        assert(count_preferring(s, p) <= target_of(targets, p));
    }
}

proof fn lemma_first_pass_pairs(s: Seq<Singer>, n: nat)
    requires
        n <= 4,
        s.len() <= usize::MAX,
    ensures
        forall|j: int|
            0 <= j < flatten_pairs(first_pass(s), n).len() ==> in_preferred_part(
                s,
                #[trigger] flatten_pairs(first_pass(s), n)[j],
            ),
    decreases n,
{
    if n > 0 {
        lemma_first_pass_pairs(s, (n - 1) as nat);
        let k = n - 1;
        let st = first_pass(s);
        let a = flatten_pairs(st, (n - 1) as nat);
        let b = pairs_of(st[k], k);
        lemma_preferring_len(s, part_at(k), s.len());
        assert(st[k] == preferring_indices(s, part_at(k), s.len()));
        assert forall|j: int| 0 <= j < (a + b).len() implies in_preferred_part(s, #[trigger] (a + b)[j]) by {
            if j >= a.len() {
                assert((a + b)[j] == b[j - a.len()]);
                assert(b[j - a.len()] == (st[k][j - a.len()], part_at(k)));
            }
        }
    }
}

/// When no part is preferred by more singers than its target, every singer
/// is allocated to their preferred part, and the allocation is the first pass.
pub proof fn law_preferred_parts_when_no_overflow(s: Seq<Singer>, targets: Map<VoicePart, usize>)
    requires
        s.len() <= usize::MAX,
        forall|p: VoicePart| count_preferring(s, p) <= #[trigger] target_of(targets, p),
    ensures
        final_lists(s, targets) == first_pass(s),
        forall|j: int|
            0 <= j < allocation_pairs(s, targets).len() ==> in_preferred_part(
                s,
                #[trigger] allocation_pairs(s, targets)[j],
            ),
{
    lemma_no_overflow_run(s, targets, 4);
    lemma_first_pass_pairs(s, 4);
}

/// An overflowing singer goes to the part, other than the one being
/// visited, that is furthest below its target; among equally needy parts,
/// to the first in score order.
pub proof fn law_neediest_part(st: Seq<Seq<usize>>, k: int, targets: Map<VoicePart, usize>)
    requires
        st.len() == 4,
        0 <= k < 4,
    ensures
        0 <= neediest(st, k, targets) < 4,
        neediest(st, k, targets) != k,
        forall|r: int|
            0 <= r < 4 && r != k ==> st[neediest(st, k, targets)].len() - target_of(
                targets,
                part_at(neediest(st, k, targets)),
            ) <= #[trigger] st[r].len() - target_of(targets, part_at(r)),
        forall|r: int|
            0 <= r < neediest(st, k, targets) && r != k ==> #[trigger] st[r].len() - target_of(
                targets,
                part_at(r),
            ) > st[neediest(st, k, targets)].len() - target_of(
                targets,
                part_at(neediest(st, k, targets)),
            ),
{
}

/// Each overflowing singer, in every state, whether or not some part is
/// below its target, is appended to the part other than the visited one
/// whose size minus target is smallest, the first in score order among
/// equals; no other list changes.
pub proof fn law_redistribute_appends_to_neediest(
    st: Seq<Seq<usize>>,
    k: int,
    overflow: Seq<usize>,
    targets: Map<VoicePart, usize>,
)
    requires
        st.len() == 4,
        0 <= k < 4,
        overflow.len() > 0,
    ensures
        ({
            let st1 = redistribute(st, k, overflow.drop_last(), targets);
            let q = neediest(st1, k, targets);
            let res = redistribute(st, k, overflow, targets);
            &&& 0 <= q < 4
            &&& q != k
            &&& res.len() == 4
            &&& res[q] == st1[q].push(overflow.last())
            &&& forall|r: int| 0 <= r < 4 && r != q ==> #[trigger] res[r] == st1[r]
            &&& forall|r: int|
                0 <= r < 4 && r != k ==> st1[q].len() - target_of(targets, part_at(q))
                    <= #[trigger] st1[r].len() - target_of(targets, part_at(r))
            &&& forall|r: int|
                0 <= r < q && r != k ==> #[trigger] st1[r].len() - target_of(targets, part_at(r))
                    > st1[q].len() - target_of(targets, part_at(q))
        }),
{
    lemma_redistribute_multiset(st, k, overflow.drop_last(), targets);
    let st1 = redistribute(st, k, overflow.drop_last(), targets);
    law_neediest_part(st1, k, targets);
}

/// Sum of the lengths of the four lists.
pub open spec fn total_len(st: Seq<Seq<usize>>) -> int {
    (st[0].len() + st[1].len() + st[2].len() + st[3].len()) as int
}

/// Sum of the targets of the four parts.
pub open spec fn total_target(targets: Map<VoicePart, usize>) -> int {
    target_of(targets, VoicePart::Soprano) + target_of(targets, VoicePart::Alto) + target_of(
        targets,
        VoicePart::Tenor,
    ) + target_of(targets, VoicePart::Bass)
}

proof fn lemma_total_len(s: Seq<Singer>, targets: Map<VoicePart, usize>, n: nat)
    requires
        n <= 4,
    ensures
        total_len(run_parts(s, targets, n)) == s.len(),
        run_parts(s, targets, n).len() == 4,
{
    broadcast use vstd::seq_lib::group_to_multiset_ensures;
    lemma_run_parts_multiset(s, targets, n);
    let st = run_parts(s, targets, n);
    assert(lists_multiset(st).len() == total_len(st));
    assert(positions(s.len()).to_multiset().len() == s.len());
}

proof fn lemma_redistribute_within(
    st: Seq<Seq<usize>>,
    k: int,
    overflow: Seq<usize>,
    targets: Map<VoicePart, usize>,
)
    requires
        st.len() == 4,
        0 <= k < 4,
        st[k].len() == target_of(targets, part_at(k)),
        forall|q: int| 0 <= q < k ==> #[trigger] st[q].len() <= target_of(targets, part_at(q)),
        total_len(st) + overflow.len() <= total_target(targets),
    ensures
        redistribute(st, k, overflow, targets).len() == 4,
        redistribute(st, k, overflow, targets)[k] == st[k],
        forall|q: int|
            0 <= q <= k ==> #[trigger] redistribute(st, k, overflow, targets)[q].len() <= target_of(
                targets,
                part_at(q),
            ),
        total_len(redistribute(st, k, overflow, targets)) == total_len(st) + overflow.len(),
    decreases overflow.len(),
{
    if overflow.len() > 0 {
        lemma_redistribute_within(st, k, overflow.drop_last(), targets);
        let st1 = redistribute(st, k, overflow.drop_last(), targets);
        let q = neediest(st1, k, targets);
        law_neediest_part(st1, k, targets);
        // some other part is below its target
        let r: int = if k != 0 && need(st1, 0, targets) < 0 {
            0
        } else if k != 1 && need(st1, 1, targets) < 0 {
            1
        } else if k != 2 && need(st1, 2, targets) < 0 {
            2
        } else {
            3
        };
        assert(r != k && need(st1, r, targets) < 0);
        assert(need(st1, q, targets) <= need(st1, r, targets));
        let st2 = st1.update(q, st1[q].push(overflow.last()));
        assert forall|p: int| 0 <= p <= k implies #[trigger] st2[p].len() <= target_of(
            targets,
            part_at(p),
        ) by {
            if p != q {
                assert(st2[p] == st1[p]);
            }
        }
    }
}

proof fn lemma_run_within(s: Seq<Singer>, targets: Map<VoicePart, usize>, n: nat)
    requires
        n <= 4,
        s.len() <= total_target(targets),
    ensures
        forall|q: int|
            0 <= q < n ==> #[trigger] run_parts(s, targets, n)[q].len() <= target_of(
                targets,
                part_at(q),
            ),
    decreases n,
{
    if n > 0 {
        let k = n - 1;
        lemma_run_within(s, targets, (n - 1) as nat);
        lemma_total_len(s, targets, (n - 1) as nat);
        let st = run_parts(s, targets, (n - 1) as nat);
        let t = target_of(targets, part_at(k));
        if st[k].len() > t {
            let sorted = sort_desc(st[k], s);
            lemma_sort_desc_multiset(st[k], s);
            let st0 = st.update(k, sorted.take(t));
            assert(st0[k].len() == t);
            assert forall|q: int| 0 <= q < k implies #[trigger] st0[q].len() <= target_of(
                targets,
                part_at(q),
            ) by {
                assert(st0[q] == st[q]);
            }
            assert(total_len(st0) + sorted.skip(t).len() == total_len(st)) by {
                assert(total_len(st0) == total_len(st) - st[k].len() + t);
            }
            lemma_redistribute_within(st0, k, sorted.skip(t), targets);
        }
    }
}

/// When the targets leave room for every singer, no part ends with more
/// singers than its target.
pub proof fn law_within_targets_when_room(s: Seq<Singer>, targets: Map<VoicePart, usize>)
    requires
        s.len() <= total_target(targets),
    ensures
        forall|q: int|
            0 <= q < 4 ==> #[trigger] final_lists(s, targets)[q].len() <= target_of(
                targets,
                part_at(q),
            ),
{
    lemma_run_within(s, targets, 4);
}

/// A list of singers in order of descending skill.
pub open spec fn sorted_desc(l: Seq<usize>, s: Seq<Singer>) -> bool {
    forall|i: int, j: int| 0 <= i < j < l.len() ==> #[trigger] skill_rank(s, l[i]) >= #[trigger] skill_rank(s, l[j])
}

proof fn lemma_insert_desc_sorted(t: Seq<usize>, x: usize, s: Seq<Singer>)
    requires
        sorted_desc(t, s),
    ensures
        sorted_desc(insert_desc(t, x, s), s),
    decreases t.len(),
{
    broadcast use vstd::seq_lib::group_to_multiset_ensures;
    if t.len() == 0 {
    } else if skill_rank(s, t.last()) >= skill_rank(s, x) {
        let r = t.push(x);
        assert forall|i: int, j: int| 0 <= i < j < r.len() implies #[trigger] skill_rank(s, r[i])
            >= #[trigger] skill_rank(s, r[j]) by {
            if j == t.len() {
                if i < t.len() - 1 {
                    assert(skill_rank(s, t[i]) >= skill_rank(s, t[t.len() - 1]));
                }
            } else {
                assert(r[i] == t[i] && r[j] == t[j]);
            }
        }
    } else {
        let d = t.drop_last();
        assert(sorted_desc(d, s)) by {
            assert forall|i: int, j: int| 0 <= i < j < d.len() implies #[trigger] skill_rank(s, d[i])
                >= #[trigger] skill_rank(s, d[j]) by {
                assert(d[i] == t[i] && d[j] == t[j]);
            }
        }
        lemma_insert_desc_sorted(d, x, s);
        let r1 = insert_desc(d, x, s);
        lemma_insert_desc_multiset(d, x, s);
        let r = r1.push(t.last());
        assert forall|i: int, j: int| 0 <= i < j < r.len() implies #[trigger] skill_rank(s, r[i])
            >= #[trigger] skill_rank(s, r[j]) by {
            if j == r1.len() {
                let e = r1[i];
                assert(r1.contains(e));
                assert(r1.to_multiset().count(e) > 0);
                if e != x {
                    assert(d.to_multiset().count(e) > 0);
                    assert(d.contains(e));
                    let m = choose|m: int| 0 <= m < d.len() && d[m] == e;
                    assert(t[m] == e);
                    assert(skill_rank(s, t[m]) >= skill_rank(s, t[t.len() - 1]));
                }
                assert(r[i] == e);
            } else {
                assert(r[i] == r1[i] && r[j] == r1[j]);
            }
        }
    }
}

/// Sorting by skill gives the same singers, each at least as skilled as
/// every one after it.
pub proof fn law_sort_desc_sorted(a: Seq<usize>, s: Seq<Singer>)
    ensures
        sorted_desc(sort_desc(a, s), s),
        sort_desc(a, s).to_multiset() == a.to_multiset(),
    decreases a.len(),
{
    lemma_sort_desc_multiset(a, s);
    if a.len() > 0 {
        law_sort_desc_sorted(a.drop_last(), s);
        lemma_insert_desc_sorted(sort_desc(a.drop_last(), s), a.last(), s);
    }
}

proof fn lemma_redistribute_keeps_k(
    st: Seq<Seq<usize>>,
    k: int,
    overflow: Seq<usize>,
    targets: Map<VoicePart, usize>,
)
    requires
        st.len() == 4,
        0 <= k < 4,
    ensures
        redistribute(st, k, overflow, targets).len() == 4,
        redistribute(st, k, overflow, targets)[k] == st[k],
    decreases overflow.len(),
{
    if overflow.len() > 0 {
        lemma_redistribute_keeps_k(st, k, overflow.drop_last(), targets);
        law_neediest_part(redistribute(st, k, overflow.drop_last(), targets), k, targets);
    }
}

/// When a part above its target is visited, it keeps exactly its target of
/// its singers; together with those it sends to other parts they are the
/// singers it held, and every singer kept is at least as skilled as every
/// singer sent away: the best stay, the weakest overflow.
pub proof fn law_overflow_keeps_the_best(
    st: Seq<Seq<usize>>,
    k: int,
    targets: Map<VoicePart, usize>,
    s: Seq<Singer>,
)
    requires
        st.len() == 4,
        0 <= k < 4,
        st[k].len() > target_of(targets, part_at(k)),
    ensures
        process_part(st, k, targets, s)[k] == kept(st, k, targets, s),
        kept(st, k, targets, s).len() == target_of(targets, part_at(k)),
        kept(st, k, targets, s).to_multiset().add(overflow_of(st, k, targets, s).to_multiset())
            == st[k].to_multiset(),
        forall|a: int, b: int|
            0 <= a < kept(st, k, targets, s).len() && 0 <= b < overflow_of(st, k, targets, s).len()
                ==> skill_rank(s, #[trigger] kept(st, k, targets, s)[a]) >= skill_rank(
                s,
                #[trigger] overflow_of(st, k, targets, s)[b],
            ),
{
    let t = target_of(targets, part_at(k));
    let sorted = sort_desc(st[k], s);
    law_sort_desc_sorted(st[k], s);
    lemma_sort_desc_multiset(st[k], s);
    lemma_redistribute_keeps_k(st.update(k, kept(st, k, targets, s)), k, overflow_of(st, k, targets, s), targets);
    assert(sorted.take(t) + sorted.skip(t) =~= sorted);
    vstd::seq_lib::lemma_multiset_commutative(sorted.take(t), sorted.skip(t));
    assert forall|a: int, b: int|
        0 <= a < kept(st, k, targets, s).len() && 0 <= b < overflow_of(st, k, targets, s).len()
        implies skill_rank(s, #[trigger] kept(st, k, targets, s)[a]) >= skill_rank(
            s,
            #[trigger] overflow_of(st, k, targets, s)[b],
        ) by {
        assert(kept(st, k, targets, s)[a] == sorted[a]);
        assert(overflow_of(st, k, targets, s)[b] == sorted[t + b]);
    }
}

/// The entries of a list whose skill rank is `v`, in order.
pub open spec fn with_rank(l: Seq<usize>, s: Seq<Singer>, v: int) -> Seq<usize>
    decreases l.len(),
{
    if l.len() == 0 {
        Seq::empty()
    } else if skill_rank(s, l.last()) == v {
        with_rank(l.drop_last(), s, v).push(l.last())
    } else {
        with_rank(l.drop_last(), s, v)
    }
}

proof fn lemma_with_rank_add(a: Seq<usize>, b: Seq<usize>, s: Seq<Singer>, v: int)
    ensures
        with_rank(a + b, s, v) == with_rank(a, s, v) + with_rank(b, s, v),
    decreases b.len(),
{
    if b.len() == 0 {
        assert(a + b =~= a);
        assert(with_rank(a, s, v) + with_rank(b, s, v) =~= with_rank(a, s, v));
    } else {
        lemma_with_rank_add(a, b.drop_last(), s, v);
        assert((a + b).drop_last() =~= a + b.drop_last());
        assert((a + b).last() == b.last());
        if skill_rank(s, b.last()) == v {
            assert(with_rank(a, s, v) + with_rank(b.drop_last(), s, v).push(b.last())
                =~= (with_rank(a, s, v) + with_rank(b.drop_last(), s, v)).push(b.last()));
        }
    }
}

proof fn lemma_with_rank_below(l: Seq<usize>, s: Seq<Singer>, v: int)
    requires
        forall|m: int| 0 <= m < l.len() ==> skill_rank(s, #[trigger] l[m]) < v,
    ensures
        with_rank(l, s, v) == Seq::<usize>::empty(),
    decreases l.len(),
{
    if l.len() > 0 {
        lemma_with_rank_below(l.drop_last(), s, v);
        assert(skill_rank(s, l[l.len() - 1]) < v);
    }
}

/// Where insertion puts the new singer: after a prefix of the list, before
/// a suffix of strictly less skilled singers.
proof fn lemma_insert_desc_shape(t: Seq<usize>, x: usize, s: Seq<Singer>) -> (pos: int)
    ensures
        0 <= pos <= t.len(),
        insert_desc(t, x, s) == t.take(pos).push(x) + t.skip(pos),
        forall|m: int| pos <= m < t.len() ==> skill_rank(s, #[trigger] t[m]) < skill_rank(s, x),
    decreases t.len(),
{
    if t.len() == 0 {
        assert(t.take(0).push(x) + t.skip(0) =~= seq![x]);
        0
    } else if skill_rank(s, t.last()) >= skill_rank(s, x) {
        assert(t.take(t.len() as int).push(x) + t.skip(t.len() as int) =~= t.push(x));
        t.len() as int
    } else {
        let d = t.drop_last();
        let p = lemma_insert_desc_shape(d, x, s);
        assert(d.take(p).push(x) + d.skip(p) + seq![t.last()] =~= t.take(p).push(x) + t.skip(p));
        assert(insert_desc(d, x, s).push(t.last()) =~= insert_desc(d, x, s) + seq![t.last()]);
        assert forall|m: int| p <= m < t.len() implies skill_rank(s, #[trigger] t[m]) < skill_rank(s, x) by {
            if m < d.len() {
                assert(t[m] == d[m]);
            }
        }
        p
    }
}

proof fn lemma_insert_desc_with_rank(t: Seq<usize>, x: usize, s: Seq<Singer>, v: int)
    ensures
        with_rank(insert_desc(t, x, s), s, v) == with_rank(t.push(x), s, v),
{
    let pos = lemma_insert_desc_shape(t, x, s);
    let pre = t.take(pos);
    let post = t.skip(pos);
    lemma_with_rank_add(pre.push(x), post, s, v);
    lemma_with_rank_add(pre, post, s, v);
    assert(pre + post =~= t);
    assert(pre.push(x).drop_last() =~= pre);
    assert((t.push(x)).drop_last() =~= t);
    if skill_rank(s, x) == v {
        assert forall|m: int| 0 <= m < post.len() implies skill_rank(s, #[trigger] post[m]) < v by {
            assert(post[m] == t[pos + m]);
        }
        lemma_with_rank_below(post, s, v);
        assert(with_rank(pre, s, v).push(x) + Seq::<usize>::empty() =~= with_rank(pre, s, v).push(x));
        assert((with_rank(pre, s, v) + with_rank(post, s, v)).push(x)
            =~= with_rank(pre, s, v).push(x) + with_rank(post, s, v));
    }
}

/// The sort by skill is stable: among singers of equal skill, the order of
/// the list is kept.
pub proof fn law_sort_desc_stable(a: Seq<usize>, s: Seq<Singer>, v: int)
    ensures
        with_rank(sort_desc(a, s), s, v) == with_rank(a, s, v),
    decreases a.len(),
{
    if a.len() > 0 {
        law_sort_desc_stable(a.drop_last(), s, v);
        let d = sort_desc(a.drop_last(), s);
        lemma_insert_desc_with_rank(d, a.last(), s, v);
        assert(d.push(a.last()).drop_last() =~= d);
        assert(a.drop_last().push(a.last()) =~= a);
    }
}

} // verus!
