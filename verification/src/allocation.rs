//! Assigning singers to voice parts.
//!
//! Every singer first goes to the section of their preferred part. Then the
//! parts are visited in score order; a part holding more singers than its
//! target keeps its most skilled singers up to the target, and each of the
//! others, in descending order of skill, moves to the part whose size is
//! furthest below its target at that moment.
use vstd::prelude::*;
use crate::ieee::{is_nan_bits, order_rank, rank_lt};
use crate::partmap::PartMap;
use crate::section::Singer;
use crate::voice::{part_at, VoicePart};

verus! {

/// Decision about which agent sings which part.
#[derive(Debug, Clone)]
pub struct Allocation {
    pub singer_id: String,
    pub assigned_part: VoicePart,
    /// Position of the singer in the list that was allocated.
    pub singer_index: usize,
}

/// The target size of a part: 0 where none is set.
pub open spec fn target_of(targets: Map<VoicePart, usize>, p: VoicePart) -> int {
    if targets.contains_key(p) {
        targets[p] as int
    } else {
        0
    }
}

/// The skill rank of the singer at position `i`.
pub open spec fn skill_rank(s: Seq<Singer>, i: usize) -> int {
    order_rank(s[i as int].skill_bits)
}

/// Positions below `n` of the singers who prefer part `p`, in order.
pub open spec fn preferring_indices(s: Seq<Singer>, p: VoicePart, n: nat) -> Seq<usize>
    decreases n,
{
    if n == 0 {
        Seq::empty()
    } else {
        let prev = preferring_indices(s, p, (n - 1) as nat);
        if s[n - 1].preferred_part == p {
            prev.push((n - 1) as usize)
        } else {
            prev
        }
    }
}

/// The first pass: each part's list holds the singers who prefer it.
pub open spec fn first_pass(s: Seq<Singer>) -> Seq<Seq<usize>> {
    seq![
        preferring_indices(s, VoicePart::Soprano, s.len()),
        preferring_indices(s, VoicePart::Alto, s.len()),
        preferring_indices(s, VoicePart::Tenor, s.len()),
        preferring_indices(s, VoicePart::Bass, s.len()),
    ]
}

/// Insert `x` into a list sorted by descending skill, after every entry
/// that is at least as skilled.
pub open spec fn insert_desc(t: Seq<usize>, x: usize, s: Seq<Singer>) -> Seq<usize>
    decreases t.len(),
{
    if t.len() == 0 {
        seq![x]
    } else if skill_rank(s, t.last()) >= skill_rank(s, x) {
        t.push(x)
    } else {
        insert_desc(t.drop_last(), x, s).push(t.last())
    }
}

/// The stable sort of a list of singers by descending skill.
pub open spec fn sort_desc(a: Seq<usize>, s: Seq<Singer>) -> Seq<usize>
    decreases a.len(),
{
    if a.len() == 0 {
        a
    } else {
        insert_desc(sort_desc(a.drop_last(), s), a.last(), s)
    }
}

/// How far the list of part `q` is above its target (negative: below).
pub open spec fn need(st: Seq<Seq<usize>>, q: int, targets: Map<VoicePart, usize>) -> int {
    st[q].len() - target_of(targets, part_at(q))
}

/// The parts other than the `k`-th, in score order.
pub open spec fn others(k: int) -> Seq<int> {
    if k == 0 {
        seq![1int, 2, 3]
    } else if k == 1 {
        seq![0int, 2, 3]
    } else if k == 2 {
        seq![0int, 1, 3]
    } else {
        seq![0int, 1, 2]
    }
}

/// The part other than the `k`-th with the smallest `need`, the first in
/// score order among equals.
pub open spec fn neediest(st: Seq<Seq<usize>>, k: int, targets: Map<VoicePart, usize>) -> int {
    let c = others(k);
    let b = if need(st, c[1], targets) < need(st, c[0], targets) {
        c[1]
    } else {
        c[0]
    };
    if need(st, c[2], targets) < need(st, b, targets) {
        c[2]
    } else {
        b
    }
}

/// Move each singer of `overflow`, in order, to the neediest part other than the `k`-th.
pub open spec fn redistribute(
    st: Seq<Seq<usize>>,
    k: int,
    overflow: Seq<usize>,
    targets: Map<VoicePart, usize>,
) -> Seq<Seq<usize>>
    decreases overflow.len(),
{
    if overflow.len() == 0 {
        st
    } else {
        let st1 = redistribute(st, k, overflow.drop_last(), targets);
        let q = neediest(st1, k, targets);
        st1.update(q, st1[q].push(overflow.last()))
    }
}

/// The singers a part keeps when it is visited: its most skilled, up to its target.
pub open spec fn kept(st: Seq<Seq<usize>>, k: int, targets: Map<VoicePart, usize>, s: Seq<Singer>) -> Seq<usize> {
    sort_desc(st[k], s).take(target_of(targets, part_at(k)))
}

/// The singers a part sends away when it is visited.
pub open spec fn overflow_of(st: Seq<Seq<usize>>, k: int, targets: Map<VoicePart, usize>, s: Seq<Singer>) -> Seq<usize> {
    sort_desc(st[k], s).skip(target_of(targets, part_at(k)))
}

/// Visit the `k`-th part: if it is above its target, keep the most skilled
/// and redistribute the rest.
pub open spec fn process_part(
    st: Seq<Seq<usize>>,
    k: int,
    targets: Map<VoicePart, usize>,
    s: Seq<Singer>,
) -> Seq<Seq<usize>> {
    if st[k].len() > target_of(targets, part_at(k)) {
        redistribute(st.update(k, kept(st, k, targets, s)), k, overflow_of(st, k, targets, s), targets)
    } else {
        st
    }
}

/// The lists after the first pass and visits to the first `n` parts.
pub open spec fn run_parts(s: Seq<Singer>, targets: Map<VoicePart, usize>, n: nat) -> Seq<Seq<usize>>
    decreases n,
{
    if n == 0 {
        first_pass(s)
    } else {
        process_part(run_parts(s, targets, (n - 1) as nat), n - 1, targets, s)
    }
}

/// The final list of each part.
pub open spec fn final_lists(s: Seq<Singer>, targets: Map<VoicePart, usize>) -> Seq<Seq<usize>> {
    run_parts(s, targets, 4)
}

/// The list of the `k`-th part as (singer, part) pairs.
pub open spec fn pairs_of(l: Seq<usize>, k: int) -> Seq<(usize, VoicePart)> {
    l.map_values(|i: usize| (i, part_at(k)))
}

/// The (singer, part) pairs of the lists of the first `n` parts, parts in score order.
pub open spec fn flatten_pairs(st: Seq<Seq<usize>>, n: nat) -> Seq<(usize, VoicePart)>
    decreases n,
{
    if n == 0 {
        Seq::empty()
    } else {
        flatten_pairs(st, (n - 1) as nat) + pairs_of(st[n - 1], n - 1)
    }
}

/// The (singer, part) pairs that `allocate_parts` returns, in order.
pub open spec fn allocation_pairs(s: Seq<Singer>, targets: Map<VoicePart, usize>) -> Seq<(usize, VoicePart)> {
    flatten_pairs(final_lists(s, targets), 4)
}

/// What `allocate_parts` asks of its input: skills to compare (no NaN) and
/// targets that fit in an `i64`, as sizes are compared as `i64` differences.
pub open spec fn allocatable(s: Seq<Singer>, targets: Map<VoicePart, usize>) -> bool {
    &&& forall|i: int| 0 <= i < s.len() ==> !is_nan_bits(#[trigger] s[i].skill_bits)
    &&& forall|p: VoicePart| targets.contains_key(p) ==> targets[p] <= i64::MAX
}

/// The lists of a state as sequences.
pub open spec fn lists_view(v: Seq<Vec<usize>>) -> Seq<Seq<usize>> {
    Seq::new(v.len(), |k: int| v[k]@)
}

/// The positions of the singers who prefer each part, in order.
fn first_pass_exec(singers: &[Singer]) -> (r: Vec<Vec<usize>>)
    ensures
        lists_view(r@) == first_pass(singers@),
{
    let mut v0: Vec<usize> = Vec::new();
    let mut v1: Vec<usize> = Vec::new();
    let mut v2: Vec<usize> = Vec::new();
    let mut v3: Vec<usize> = Vec::new();
    let mut i: usize = 0;
    while i < singers.len()
        invariant
            i <= singers@.len(),
            v0@ == preferring_indices(singers@, VoicePart::Soprano, i as nat),
            v1@ == preferring_indices(singers@, VoicePart::Alto, i as nat),
            v2@ == preferring_indices(singers@, VoicePart::Tenor, i as nat),
            v3@ == preferring_indices(singers@, VoicePart::Bass, i as nat),
        decreases singers@.len() - i,
    {
        match singers[i].preferred_part {
            VoicePart::Soprano => v0.push(i),
            VoicePart::Alto => v1.push(i),
            VoicePart::Tenor => v2.push(i),
            VoicePart::Bass => v3.push(i),
        }
        i = i + 1;
    }
    let r = vec![v0, v1, v2, v3];
    assert(lists_view(r@) =~= first_pass(singers@));
    r
}

/// Every entry of a list is a position below `n`.
pub open spec fn all_below(l: Seq<usize>, n: nat) -> bool {
    forall|m: int| 0 <= m < l.len() ==> #[trigger] l[m] < n
}

/// Inserting into a sorted list adds exactly the inserted singer.
pub proof fn lemma_insert_desc_multiset(t: Seq<usize>, x: usize, s: Seq<Singer>)
    ensures
        insert_desc(t, x, s).to_multiset() == t.to_multiset().insert(x),
        insert_desc(t, x, s).len() == t.len() + 1,
    decreases t.len(),
{
    broadcast use vstd::seq_lib::group_to_multiset_ensures;
    if t.len() > 0 && skill_rank(s, t.last()) < skill_rank(s, x) {
        lemma_insert_desc_multiset(t.drop_last(), x, s);
        assert(t.drop_last().push(t.last()) =~= t);
        assert(t.to_multiset() =~= t.drop_last().to_multiset().insert(t.last()));
        assert(insert_desc(t, x, s).to_multiset() =~= t.to_multiset().insert(x));
    } else if t.len() == 0 {
        assert(seq![x] =~= t.push(x));
    }
}

/// Sorting keeps exactly the singers of the list.
pub proof fn lemma_sort_desc_multiset(a: Seq<usize>, s: Seq<Singer>)
    ensures
        sort_desc(a, s).to_multiset() == a.to_multiset(),
        sort_desc(a, s).len() == a.len(),
    decreases a.len(),
{
    broadcast use vstd::seq_lib::group_to_multiset_ensures;
    if a.len() > 0 {
        lemma_sort_desc_multiset(a.drop_last(), s);
        lemma_insert_desc_multiset(sort_desc(a.drop_last(), s), a.last(), s);
        assert(a.drop_last().push(a.last()) =~= a);
    }
}

/// Two lists with the same singers have the same bound.
pub proof fn lemma_same_multiset_below(a: Seq<usize>, b: Seq<usize>, n: nat)
    requires
        a.to_multiset() == b.to_multiset(),
        all_below(a, n),
    ensures
        all_below(b, n),
{
    broadcast use vstd::seq_lib::group_to_multiset_ensures;
    assert forall|m: int| 0 <= m < b.len() implies #[trigger] b[m] < n by {
        assert(b.contains(b[m]));
        assert(b.to_multiset().count(b[m]) > 0);
        assert(a.contains(b[m]));
    }
}

/// Insert `x` into `t`, kept sorted by descending skill after every entry at least as skilled.
fn insert_desc_exec(t: &mut Vec<usize>, x: usize, singers: &[Singer])
    requires
        x < singers@.len(),
        all_below(old(t)@, singers@.len()),
    ensures
        final(t)@ == insert_desc(old(t)@, x, singers@),
        all_below(final(t)@, singers@.len()),
{
    let ghost t0 = t@;
    let ghost s = singers@;
    let mut j: usize = t.len();
    t.push(x);
    assert(t0.take(j as int) =~= t0);
    assert(t0.skip(j as int) =~= Seq::<usize>::empty());
    assert(insert_desc(t0, x, s) + Seq::<usize>::empty() =~= insert_desc(t0, x, s));
    loop
        invariant
            j <= t0.len(),
            t@.len() == t0.len() + 1,
            forall|m: int| 0 <= m < j ==> #[trigger] t@[m] == t0[m],
            forall|m: int| j < m <= t0.len() ==> #[trigger] t@[m] == t0[m - 1],
            insert_desc(t0, x, s) == insert_desc(t0.take(j as int), x, s) + t0.skip(j as int),
            all_below(t0, s.len()),
            x < s.len(),
            s == singers@,
        ensures
            j <= t0.len(),
            t@.len() == t0.len() + 1,
            forall|m: int| 0 <= m < j ==> #[trigger] t@[m] == t0[m],
            forall|m: int| j < m <= t0.len() ==> #[trigger] t@[m] == t0[m - 1],
            insert_desc(t0, x, s) == insert_desc(t0.take(j as int), x, s) + t0.skip(j as int),
            j == 0 || skill_rank(s, t0[j - 1]) >= skill_rank(s, x),
        decreases j,
    {
        if j == 0 {
            break;
        }
        let prev = t[j - 1];
        assert(prev == t0[j - 1]);
        if !rank_lt(singers[prev].skill_bits, singers[x].skill_bits) {
            break;
        }
        proof {
            let tj = t0.take(j as int);
            assert(tj.drop_last() =~= t0.take(j - 1));
            assert(tj.last() == t0[j - 1]);
            assert(insert_desc(tj, x, s) == insert_desc(t0.take(j - 1), x, s).push(t0[j - 1]));
            assert(insert_desc(t0.take(j - 1), x, s).push(t0[j - 1]) + t0.skip(j as int)
                =~= insert_desc(t0.take(j - 1), x, s) + t0.skip(j - 1));
        }
        t.set(j, prev);
        j = j - 1;
    }
    t.set(j, x);
    proof {
        let tj = t0.take(j as int);
        if j > 0 {
            assert(tj.drop_last() =~= t0.take(j - 1));
            assert(insert_desc(tj, x, s) == tj.push(x));
        } else {
            assert(insert_desc(tj, x, s) == seq![x]);
        }
        assert(t@ =~= insert_desc(t0, x, s));
        lemma_insert_desc_multiset(t0, x, s);
        assert(all_below(t0.push(x), s.len()));
        vstd::seq_lib::to_multiset_build(t0, x);
        lemma_same_multiset_below(t0.push(x), t@, s.len());
    }
}

/// The stable sort of a list of singers by descending skill.
fn sort_desc_exec(a: &Vec<usize>, singers: &[Singer]) -> (r: Vec<usize>)
    requires
        all_below(a@, singers@.len()),
    ensures
        r@ == sort_desc(a@, singers@),
        all_below(r@, singers@.len()),
{
    let mut r: Vec<usize> = Vec::new();
    let mut i: usize = 0;
    while i < a.len()
        invariant
            i <= a@.len(),
            r@ == sort_desc(a@.take(i as int), singers@),
            all_below(r@, singers@.len()),
            all_below(a@, singers@.len()),
        decreases a@.len() - i,
    {
        proof {
            let ai = a@.take(i + 1);
            assert(ai.drop_last() =~= a@.take(i as int));
        }
        insert_desc_exec(&mut r, a[i], singers);
        i = i + 1;
    }
    assert(a@.take(i as int) =~= a@);
    r
}

/// The target of a part: 0 where none is set.
fn target_exec(targets: &PartMap<usize>, part: VoicePart) -> (r: usize)
    ensures
        r == target_of(targets@, part),
{
    match targets.get(part) {
        Some(t) => *t,
        None => 0,
    }
}

/// Whether `len_a - target_a < len_b - target_b`.
fn need_lt(len_a: usize, target_a: usize, len_b: usize, target_b: usize) -> (r: bool)
    ensures
        r == (len_a - target_a < len_b - target_b),
{
    (len_a as u128) + (target_b as u128) < (len_b as u128) + (target_a as u128)
}

/// The part other than the `k`-th whose list is furthest below its target,
/// the first in score order among equals.
fn neediest_exec(state: &Vec<Vec<usize>>, k: usize, targets: &PartMap<usize>) -> (r: usize)
    requires
        state@.len() == 4,
        k < 4,
    ensures
        r == neediest(lists_view(state@), k as int, targets@),
        r < 4,
        r != k,
{
    let ghost st = lists_view(state@);
    let parts = VoicePart::all();
    let (c0, c1, c2): (usize, usize, usize) = if k == 0 {
        (1, 2, 3)
    } else if k == 1 {
        (0, 2, 3)
    } else if k == 2 {
        (0, 1, 3)
    } else {
        (0, 1, 2)
    };
    assert(others(k as int) =~= seq![c0 as int, c1 as int, c2 as int]);
    let l0 = state[c0].len();
    let t0 = target_exec(targets, parts[c0]);
    let l1 = state[c1].len();
    let t1 = target_exec(targets, parts[c1]);
    let l2 = state[c2].len();
    let t2 = target_exec(targets, parts[c2]);
    assert(need(st, c0 as int, targets@) == l0 - t0);
    assert(need(st, c1 as int, targets@) == l1 - t1);
    assert(need(st, c2 as int, targets@) == l2 - t2);
    let (b, lb, tb) = if need_lt(l1, t1, l0, t0) {
        (c1, l1, t1)
    } else {
        (c0, l0, t0)
    };
    if need_lt(l2, t2, lb, tb) {
        c2
    } else {
        b
    }
}

/// Add singer `x` at the end of the `q`-th list.
fn push_to(state: &mut Vec<Vec<usize>>, q: usize, x: usize)
    requires
        q < old(state)@.len(),
    ensures
        final(state)@.len() == old(state)@.len(),
        lists_view(final(state)@) == lists_view(old(state)@).update(
            q as int,
            lists_view(old(state)@)[q as int].push(x),
        ),
{
    let mut l: Vec<usize> = Vec::new();
    state.set_and_swap(q, &mut l);
    l.push(x);
    state.set(q, l);
    assert(lists_view(state@) =~= lists_view(old(state)@).update(
        q as int,
        lists_view(old(state)@)[q as int].push(x),
    ));
}

/// Every list of a state holds positions below `n`.
pub open spec fn lists_below(st: Seq<Seq<usize>>, n: nat) -> bool {
    forall|q: int| 0 <= q < st.len() ==> all_below(#[trigger] st[q], n)
}

/// Redistributing singers below `n` keeps every list below `n`.
pub proof fn lemma_redistribute_below(
    st: Seq<Seq<usize>>,
    k: int,
    overflow: Seq<usize>,
    targets: Map<VoicePart, usize>,
    n: nat,
)
    requires
        st.len() == 4,
        0 <= k < 4,
        lists_below(st, n),
        all_below(overflow, n),
    ensures
        lists_below(redistribute(st, k, overflow, targets), n),
        redistribute(st, k, overflow, targets).len() == 4,
    decreases overflow.len(),
{
    if overflow.len() > 0 {
        lemma_redistribute_below(st, k, overflow.drop_last(), targets, n);
        let st1 = redistribute(st, k, overflow.drop_last(), targets);
        let q = neediest(st1, k, targets);
        assert(all_below(st1[q].push(overflow.last()), n));
        assert forall|p: int| 0 <= p < 4 implies all_below(
            #[trigger] st1.update(q, st1[q].push(overflow.last()))[p],
            n,
        ) by {
            if p != q {
                assert(st1.update(q, st1[q].push(overflow.last()))[p] == st1[p]);
            }
        }
    }
}


/// The positions of the first pass are positions of singers.
pub proof fn lemma_preferring_below(s: Seq<Singer>, p: VoicePart, n: nat)
    requires
        n <= s.len(),
    ensures
        all_below(preferring_indices(s, p, n), s.len()),
        preferring_indices(s, p, n).len() <= n,
    decreases n,
{
    if n > 0 {
        lemma_preferring_below(s, p, (n - 1) as nat);
    }
}

/// The lists of the first pass hold positions of singers.
pub proof fn lemma_first_pass_below(s: Seq<Singer>)
    ensures
        lists_below(first_pass(s), s.len()),
        first_pass(s).len() == 4,
{
    lemma_preferring_below(s, VoicePart::Soprano, s.len());
    lemma_preferring_below(s, VoicePart::Alto, s.len());
    lemma_preferring_below(s, VoicePart::Tenor, s.len());
    lemma_preferring_below(s, VoicePart::Bass, s.len());
}

/// Assign singers to parts based on their capabilities.
///
/// Greedy algorithm: each singer is assigned to their preferred part first;
/// then, part by part in score order, if a section is overfull, the
/// lowest-skill extras are redistributed, one at a time and weakest last,
/// to the section that is at that moment furthest below its target (the
/// first in score order among equals). Parts without a target have target 0.
///
/// The result lists the parts in score order, and within a part its singers
/// in the order in which they joined it.
pub fn allocate_parts(singers: &[Singer], target_sizes: &PartMap<usize>) -> (r: Vec<Allocation>)
    requires
        allocatable(singers@, target_sizes@),
    ensures
        r@.len() == allocation_pairs(singers@, target_sizes@).len(),
        forall|j: int|
            0 <= j < r@.len() ==> {
                let pair = #[trigger] allocation_pairs(singers@, target_sizes@)[j];
                &&& r@[j].singer_index == pair.0
                &&& r@[j].assigned_part == pair.1
                &&& pair.0 < singers@.len()
                &&& r@[j].singer_id@ == singers@[pair.0 as int].id@
            },
{
    let ghost s = singers@;
    let ghost tg = target_sizes@;
    let mut state = first_pass_exec(singers);
    proof {
        lemma_first_pass_below(s);
    }
    let parts = VoicePart::all();
    let mut k: usize = 0;
    while k < 4
        invariant
            k <= 4,
            state@.len() == 4,
            lists_view(state@) == run_parts(s, tg, k as nat),
            lists_below(lists_view(state@), s.len()),
            s == singers@,
            tg == target_sizes@,
            parts@ == crate::voice::score_order(),
        decreases 4 - k,
    {
        let ghost st = lists_view(state@);
        let part = parts[k];
        assert(part == part_at(k as int));
        let target = target_exec(target_sizes, part);
        if state[k].len() > target {
            let mut list: Vec<usize> = Vec::new();
            state.set_and_swap(k, &mut list);
            assert(list@ == st[k as int]);
            assert(all_below(list@, s.len()));
            let mut sorted = sort_desc_exec(&list, singers);
            proof {
                lemma_sort_desc_multiset(list@, s);
            }
            let overflow = sorted.split_off(target);
            assert(sorted@ == kept(st, k as int, tg, s));
            assert(overflow@ == overflow_of(st, k as int, tg, s));
            state.set(k, sorted);
            let ghost st0 = st.update(k as int, kept(st, k as int, tg, s));
            assert(lists_view(state@) =~= st0);
            assert(all_below(overflow@, s.len()));
            assert(lists_below(st0, s.len())) by {
                assert forall|q: int| 0 <= q < 4 implies all_below(#[trigger] st0[q], s.len()) by {
                    if q != k {
                        assert(st0[q] == st[q]);
                    }
                }
            }
            let mut j: usize = 0;
            while j < overflow.len()
                invariant
                    j <= overflow@.len(),
                    k < 4,
                    state@.len() == 4,
                    lists_view(state@) == redistribute(st0, k as int, overflow@.take(j as int), tg),
                    lists_below(lists_view(state@), s.len()),
                    all_below(overflow@, s.len()),
                    tg == target_sizes@,
                decreases overflow@.len() - j,
            {
                let q = neediest_exec(&state, k, target_sizes);
                let ghost pre = lists_view(state@);
                proof {
                    assert(overflow@.take(j + 1).drop_last() =~= overflow@.take(j as int));
                    assert(overflow@.take(j + 1).last() == overflow@[j as int]);
                }
                push_to(&mut state, q, overflow[j]);
                proof {
                    let stv = lists_view(state@);
                    assert forall|p: int| 0 <= p < 4 implies all_below(#[trigger] stv[p], s.len()) by {
                        if p != q {
                            assert(stv[p] == pre[p]);
                        }
                    }
                }
                j = j + 1;
            }
            assert(overflow@.take(j as int) =~= overflow@);
        }
        k = k + 1;
    }
    let ghost fin = lists_view(state@);
    assert(fin == final_lists(s, tg));
    let mut r: Vec<Allocation> = Vec::new();
    let mut k: usize = 0;
    while k < 4
        invariant
            k <= 4,
            state@.len() == 4,
            lists_view(state@) == fin,
            lists_below(fin, s.len()),
            s == singers@,
            parts@ == crate::voice::score_order(),
            r@.len() == flatten_pairs(fin, k as nat).len(),
            forall|j: int|
                0 <= j < r@.len() ==> {
                    let pair = #[trigger] flatten_pairs(fin, k as nat)[j];
                    &&& r@[j].singer_index == pair.0
                    &&& r@[j].assigned_part == pair.1
                    &&& pair.0 < s.len()
                    &&& r@[j].singer_id@ == s[pair.0 as int].id@
                },
        decreases 4 - k,
    {
        let part = parts[k];
        assert(part == part_at(k as int));
        let list = &state[k];
        assert(list@ == fin[k as int]);
        let ghost before = flatten_pairs(fin, k as nat);
        let mut m: usize = 0;
        while m < list.len()
            invariant
                m <= list@.len(),
                list@ == fin[k as int],
                all_below(list@, s.len()),
                s == singers@,
                part == part_at(k as int),
                r@.len() == before.len() + m,
                forall|j: int|
                    0 <= j < r@.len() ==> {
                        let pair = #[trigger] (before + pairs_of(list@, k as int))[j];
                        &&& r@[j].singer_index == pair.0
                        &&& r@[j].assigned_part == pair.1
                        &&& pair.0 < s.len()
                        &&& r@[j].singer_id@ == s[pair.0 as int].id@
                    },
            decreases list@.len() - m,
        {
            let i = list[m];
            let id = singers[i].id.clone();
            r.push(Allocation { singer_id: id, assigned_part: part, singer_index: i });
            proof {
                assert((before + pairs_of(list@, k as int))[before.len() + m] == (i, part));
            }
            m = m + 1;
        }
        assert(flatten_pairs(fin, (k + 1) as nat) == before + pairs_of(list@, k as int));
        k = k + 1;
    }
    r
}

} // verus!
