//! The oblivious flavor-grouping sorter, the merge-chain builder, the wiring of
//! the pairwise cloak gates and the relation each gate enforces.

use vstd::prelude::*;
use crate::ct::{assign_flavor, assign_quantity, flavors_equal, swap_flavors, swap_quantities};
use crate::value::{flavor_from_u64, zero_flavor, Value};
use curve25519_dalek::scalar::Scalar;

verus! {

// ---------------------------------------------------------------------------
// Sorter
// ---------------------------------------------------------------------------

/// One masked step of the sorter: when the value at `j` shares the flavor of the
/// value at `i`, it trades places with the value at `i + 1`.
pub open spec fn sort_step(s: Seq<Value>, i: int, j: int) -> Seq<Value> {
    if s[j].f == s[i].f {
        s.update(i + 1, s[j]).update(j, s[i + 1])
    } else {
        s
    }
}

/// The inner scan of the sorter for slot `i`, from index `j` to the end.
pub open spec fn sort_scan(s: Seq<Value>, i: int, j: int) -> Seq<Value>
    decreases s.len() - j,
{
    if j < 0 || j >= s.len() || i < 0 || i + 2 > j {
        s
    } else {
        sort_scan(sort_step(s, i, j), i, j + 1)
    }
}

/// The sorter from slot `i` on: a scan for each slot but the last.
pub open spec fn sort_from(s: Seq<Value>, i: int) -> Seq<Value>
    decreases s.len() - i via sort_from_decreases
{
    if i < 0 || i + 1 >= s.len() {
        s
    } else {
        sort_from(sort_scan(s, i, i + 2), i + 1)
    }
}

/// The scan keeps the length.
pub proof fn lemma_scan_len(s: Seq<Value>, i: int, j: int)
    ensures
        sort_scan(s, i, j).len() == s.len(),
    decreases s.len() - j,
{
    if !(j < 0 || j >= s.len() || i < 0 || i + 2 > j) {
        lemma_scan_len(sort_step(s, i, j), i, j + 1);
    }
}

#[via_fn]
proof fn sort_from_decreases(s: Seq<Value>, i: int) {
    if !(i < 0 || i + 1 >= s.len()) {
        lemma_scan_len(s, i, i + 2);
    }
}

/// What the sorter makes of a sequence of values.
pub open spec fn grouped(s: Seq<Value>) -> Seq<Value> {
    sort_from(s, 0)
}

/// The sorter keeps the length.
pub proof fn lemma_grouped_len(s: Seq<Value>)
    ensures
        grouped(s).len() == s.len(),
{
    lemma_sort_from_len(s, 0);
}

proof fn lemma_sort_from_len(s: Seq<Value>, i: int)
    ensures
        sort_from(s, i).len() == s.len(),
    decreases s.len() - i,
{
    if !(i < 0 || i + 1 >= s.len()) {
        lemma_scan_len(s, i, i + 2);
        lemma_sort_from_len(sort_scan(s, i, i + 2), i + 1);
    }
}

/// No two values of the sequence share a flavor.
pub open spec fn distinct_flavors(s: Seq<Value>) -> bool {
    forall|i: int, j: int| 0 <= i < j < s.len() ==> s[i].f != s[j].f
}

proof fn lemma_scan_keeps_distinct(s: Seq<Value>, i: int, j: int)
    requires
        distinct_flavors(s),
    ensures
        sort_scan(s, i, j) == s,
    decreases s.len() - j,
{
    if !(j < 0 || j >= s.len() || i < 0 || i + 2 > j) {
        lemma_scan_keeps_distinct(s, i, j + 1);
    }
}

proof fn lemma_sort_from_keeps_distinct(s: Seq<Value>, i: int)
    requires
        distinct_flavors(s),
    ensures
        sort_from(s, i) == s,
    decreases s.len() - i,
{
    if !(i < 0 || i + 1 >= s.len()) {
        lemma_scan_keeps_distinct(s, i, i + 2);
        lemma_sort_from_keeps_distinct(s, i + 1);
    }
}

/// Grouping is idempotent on a sequence whose flavors all differ: the sorter
/// returns such a sequence unchanged.
pub proof fn lemma_grouping_keeps_distinct_flavors(s: Seq<Value>)
    requires
        distinct_flavors(s),
    ensures
        grouped(s) == s,
{
    lemma_sort_from_keeps_distinct(s, 0);
}

/// The index pairs `(i, j)` that the scan for slot `i` compares, from `j` up to `k`.
pub open spec fn scan_pairs(i: int, j: int, k: int) -> Seq<(int, int)>
    decreases k - j,
{
    if j < 0 || j >= k || i < 0 || i + 2 > j {
        Seq::empty()
    } else {
        seq![(i, j)] + scan_pairs(i, j + 1, k)
    }
}

/// The index pairs that the sorter compares over `k` values, from slot `i` on.
pub open spec fn sort_pairs_from(i: int, k: int) -> Seq<(int, int)>
    decreases k - i,
{
    if i < 0 || i + 1 >= k {
        Seq::empty()
    } else {
        scan_pairs(i, i + 2, k) + sort_pairs_from(i + 1, k)
    }
}

/// The index pairs that the sorter compares over `k` values, in order.
pub open spec fn sort_pairs(k: int) -> Seq<(int, int)> {
    sort_pairs_from(0, k)
}

/// The masked steps at the pairs `ps`, one after another.
pub open spec fn apply_steps(s: Seq<Value>, ps: Seq<(int, int)>) -> Seq<Value>
    decreases ps.len(),
{
    if ps.len() == 0 {
        s
    } else {
        apply_steps(sort_step(s, ps[0].0, ps[0].1), ps.drop_first())
    }
}

proof fn lemma_apply_concat(s: Seq<Value>, a: Seq<(int, int)>, b: Seq<(int, int)>)
    ensures
        apply_steps(s, a + b) == apply_steps(apply_steps(s, a), b),
    decreases a.len(),
{
    if a.len() == 0 {
        assert(a + b =~= b);
    } else {
        assert((a + b).drop_first() =~= a.drop_first() + b);
        lemma_apply_concat(sort_step(s, a[0].0, a[0].1), a.drop_first(), b);
    }
}

proof fn lemma_scan_steps(s: Seq<Value>, i: int, j: int)
    ensures
        sort_scan(s, i, j) == apply_steps(s, scan_pairs(i, j, s.len() as int)),
        2 <= i + 2 <= j <= s.len() ==> scan_pairs(i, j, s.len() as int).len() == s.len() - j,
    decreases s.len() - j,
{
    let k = s.len() as int;
    if !(j < 0 || j >= k || i < 0 || i + 2 > j) {
        let t = sort_step(s, i, j);
        lemma_scan_steps(t, i, j + 1);
        let ps = scan_pairs(i, j, k);
        assert(ps.drop_first() =~= scan_pairs(i, j + 1, k));
    }
}

proof fn lemma_sort_from_steps(s: Seq<Value>, i: int)
    requires
        0 <= i,
    ensures
        sort_from(s, i) == apply_steps(s, sort_pairs_from(i, s.len() as int)),
        i < s.len() ==> 2 * sort_pairs_from(i, s.len() as int).len() == (s.len() - i - 1) * (
        s.len() - i - 2),
    decreases s.len() - i,
{
    let k = s.len() as int;
    if i + 1 < k {
        let t = sort_scan(s, i, i + 2);
        lemma_scan_steps(s, i, i + 2);
        lemma_scan_len(s, i, i + 2);
        lemma_sort_from_steps(t, i + 1);
        lemma_apply_concat(s, scan_pairs(i, i + 2, k), sort_pairs_from(i + 1, k));
        let n = k - i - 1;
        assert(2 * (n - 1) + (n - 1) * (n - 2) == n * (n - 1)) by (nonlinear_arith);
        assert(sort_pairs_from(i, k).len() == scan_pairs(i, i + 2, k).len() + sort_pairs_from(
            i + 1,
            k,
        ).len());
        assert(2 * sort_pairs_from(i + 1, k).len() == (n - 1) * (n - 2));
    } else if i < k {
        assert((k - i - 1) * (k - i - 2) == 0) by (nonlinear_arith)
            requires
                i + 1 == k,
        ;
    }
}

/// The sorter's work is fixed by the number of values alone: its result over `k`
/// values is that of the masked compare-and-swap steps at the index pairs
/// `sort_pairs(k)`, one flavor comparison and one conditional swap each, and there
/// are `(k - 1)(k - 2) / 2` of them whatever the flavors are.
pub proof fn lemma_sort_schedule(s: Seq<Value>)
    requires
        s.len() >= 1,
    ensures
        grouped(s) == apply_steps(s, sort_pairs(s.len() as int)),
        2 * sort_pairs(s.len() as int).len() == (s.len() - 1) * (s.len() - 2),
{
    lemma_sort_from_steps(s, 0);
}

/// Some value at index `lo` or later has flavor `x`.
pub open spec fn has_flavor_from(s: Seq<Value>, lo: int, x: Scalar) -> bool {
    exists|p: int| 0 <= lo <= p < s.len() && #[trigger] s[p].f == x
}

/// Values of one flavor stand together: whenever a value has a later value of its
/// flavor, the next value has its flavor too.
pub open spec fn flavors_adjacent(s: Seq<Value>) -> bool {
    forall|i: int, j: int|
        0 <= i < j < s.len() && #[trigger] s[j].f == #[trigger] s[i].f ==> s[i + 1].f == s[i].f
}

proof fn lemma_step_keeps(s: Seq<Value>, i: int, j: int, lo: int, x: Scalar)
    requires
        0 <= i,
        i + 2 <= j < s.len(),
        lo <= i + 1,
    ensures
        sort_step(s, i, j).len() == s.len(),
        sort_step(s, i, j).to_multiset() == s.to_multiset(),
        forall|p: int| 0 <= p <= i ==> sort_step(s, i, j)[p] == s[p],
        has_flavor_from(sort_step(s, i, j), lo, x) == has_flavor_from(s, lo, x),
{
    broadcast use vstd::seq_lib::to_multiset_update, vstd::seq_lib::to_multiset_contains,
        vstd::multiset::group_multiset_axioms;

    let t = sort_step(s, i, j);
    if s[j].f == s[i].f {
        let s1 = s.update(i + 1, s[j]);
        assert(t == s1.update(j, s[i + 1]));
        assert(s1[j] == s[j]);
        assert(s1.to_multiset() == s.to_multiset().insert(s[j]).remove(s[i + 1]));
        assert(t.to_multiset() == s1.to_multiset().insert(s[i + 1]).remove(s[j]));
        let m = s.to_multiset();
        let a = s[j];
        let b = s[i + 1];
        assert(s.contains(b));
        assert(m.count(b) > 0);
        assert(s1.to_multiset().count(a) > 0) by {
            assert(s1[i + 1] == a);
            assert(s1.contains(a));
        }
        assert(t.to_multiset() =~= s.to_multiset());
        assert(t[j] == s[i + 1]);
        assert(t[i + 1] == s[j]);
        assert(forall|p: int| 0 <= p < s.len() && p != i + 1 && p != j ==> t[p] == s[p]);
        if has_flavor_from(s, lo, x) {
            let p = choose|p: int| 0 <= lo <= p < s.len() && #[trigger] s[p].f == x;
            if p == i + 1 {
                assert(t[j].f == x);
            } else if p == j {
                assert(t[i + 1].f == x);
            } else {
                assert(t[p].f == x);
            }
        }
        if has_flavor_from(t, lo, x) {
            let p = choose|p: int| 0 <= lo <= p < t.len() && #[trigger] t[p].f == x;
            if p == i + 1 {
                assert(s[j].f == x);
            } else if p == j {
                assert(s[i + 1].f == x);
            } else {
                assert(s[p].f == x);
            }
        }
    }
}

proof fn lemma_scan_keeps(s: Seq<Value>, i: int, j: int, lo: int, x: Scalar)
    requires
        0 <= i,
        i + 2 <= j,
        lo <= i + 1,
    ensures
        sort_scan(s, i, j).len() == s.len(),
        sort_scan(s, i, j).to_multiset() == s.to_multiset(),
        forall|p: int| 0 <= p <= i ==> sort_scan(s, i, j)[p] == s[p],
        has_flavor_from(sort_scan(s, i, j), lo, x) == has_flavor_from(s, lo, x),
    decreases s.len() - j,
{
    if j < s.len() {
        lemma_step_keeps(s, i, j, lo, x);
        lemma_scan_keeps(sort_step(s, i, j), i, j + 1, lo, x);
    }
}

proof fn lemma_scan_matches(s: Seq<Value>, i: int, j: int)
    requires
        0 <= i,
        i + 2 <= j <= s.len(),
        s[i + 1].f == s[i].f || exists|p: int| j <= p < s.len() && #[trigger] s[p].f == s[i].f,
    ensures
        sort_scan(s, i, j)[i + 1].f == s[i].f,
    decreases s.len() - j,
{
    if j < s.len() {
        let t = sort_step(s, i, j);
        assert(t[i] == s[i]);
        if s[i + 1].f != s[i].f && s[j].f != s[i].f {
            let p = choose|p: int| j <= p < s.len() && #[trigger] s[p].f == s[i].f;
            assert(t[p].f == t[i].f && j + 1 <= p);
        }
        lemma_scan_matches(t, i, j + 1);
    }
}

proof fn lemma_sort_from_keeps(s: Seq<Value>, m: int, lo: int, x: Scalar)
    requires
        0 <= m,
        lo <= m + 1,
    ensures
        sort_from(s, m).len() == s.len(),
        sort_from(s, m).to_multiset() == s.to_multiset(),
        forall|p: int| 0 <= p <= m && p < s.len() ==> sort_from(s, m)[p] == s[p],
        has_flavor_from(sort_from(s, m), lo, x) == has_flavor_from(s, lo, x),
    decreases s.len() - m,
{
    if m + 1 < s.len() {
        let t = sort_scan(s, m, m + 2);
        lemma_scan_keeps(s, m, m + 2, lo, x);
        lemma_sort_from_keeps(t, m + 1, lo, x);
    }
}

proof fn lemma_sort_from_groups(s: Seq<Value>, m: int)
    requires
        0 <= m,
    ensures
        forall|i: int, j: int|
            m <= i < j < s.len() && #[trigger] sort_from(s, m)[j].f == #[trigger] sort_from(
                s,
                m,
            )[i].f ==> sort_from(s, m)[i + 1].f == sort_from(s, m)[i].f,
    decreases s.len() - m,
{
    if m + 1 < s.len() {
        let t = sort_scan(s, m, m + 2);
        let r = sort_from(s, m);
        lemma_scan_len(s, m, m + 2);
        assert(r == sort_from(t, m + 1));
        lemma_sort_from_groups(t, m + 1);
        assert forall|i: int, j: int|
            m <= i < j < s.len() && #[trigger] r[j].f == #[trigger] r[i].f implies r[i + 1].f
            == r[i].f by {
            if i == m {
                let x = s[m].f;
                lemma_scan_keeps(s, m, m + 2, m + 1, x);
                lemma_sort_from_keeps(t, m + 1, m + 1, x);
                assert(r[m] == s[m]);
                assert(r[m + 1] == t[m + 1]);
                assert(has_flavor_from(r, m + 1, x));
                assert(has_flavor_from(s, m + 1, x));
                let p = choose|p: int| m + 1 <= p < s.len() && #[trigger] s[p].f == x;
                if p > m + 1 {
                    assert(s[p].f == s[m].f);
                }
                lemma_scan_matches(s, m, m + 2);
            }
        }
    }
}

/// The sorter's postcondition: its result is a rearrangement of its input in
/// which the values of each flavor stand next to one another.
pub proof fn lemma_grouped_is_adjacent_rearrangement(s: Seq<Value>)
    ensures
        grouped(s).to_multiset() == s.to_multiset(),
        flavors_adjacent(grouped(s)),
{
    lemma_sort_from_keeps(s, 0, 0, zero_flavor());
    lemma_sort_from_groups(s, 0);
}

/// Reorders `inputs` so that values of one flavor stand together, with masked
/// comparisons and masked swaps only: the same steps run whatever the flavors are.
pub fn order_by_flavor(inputs: &Vec<Value>) -> (r: Vec<Value>)
    requires
        inputs.len() >= 1,
    ensures
        r@ == grouped(inputs@),
        r@.to_multiset() == inputs@.to_multiset(),
        flavors_adjacent(r@),
{
    let k = inputs.len();
    let mut outputs = inputs.clone();
    proof {
        assert(outputs@ =~= inputs@);
    }
    let mut i: usize = 0;
    while i + 1 < k
        invariant
            0 <= i < k,
            outputs.len() == k,
            grouped(inputs@) == sort_from(outputs@, i as int),
        decreases k - i,
    {
        let ghost start = outputs@;
        // The value whose flavor this scan groups by.
        let flav = outputs[i];
        // The value that may trade places with a later one of the same flavor.
        let mut swap = outputs[i + 1];
        let mut j: usize = i + 2;
        while j < k
            invariant
                i + 2 <= j <= k,
                i + 1 < k,
                outputs.len() == k,
                flav == outputs@[i as int],
                swap == outputs@[i + 1],
                sort_scan(start, i as int, i + 2) == sort_scan(outputs@, i as int, j as int),
            decreases k - j,
        {
            let ghost before = outputs@;
            let mut comp = outputs[j];
            let same = flavors_equal(&flav.f, &comp.f);
            swap_quantities(&mut swap.q, &mut comp.q, same);
            swap_flavors(&mut swap.f, &mut comp.f, same);
            outputs.set(i + 1, swap);
            outputs.set(j, comp);
            proof {
                assert(outputs@ =~= sort_step(before, i as int, j as int));
            }
            j = j + 1;
        }
        i = i + 1;
    }
    proof {
        lemma_grouped_is_adjacent_rearrangement(inputs@);
    }
    outputs
}

// ---------------------------------------------------------------------------
// Merge chain
// ---------------------------------------------------------------------------

/// Errors of the cloaking computation.
#[derive(Clone, Copy, Debug, PartialEq, Eq, Structural)]
pub enum CloakError {
    /// The input, mid and output sequences do not have the lengths `k`, `k - 2`, `k`.
    LengthMismatch,
    /// A merged quantity does not fit in the signed-integer domain.
    Overflow,
}

/// Whether `a + b` fits in the quantity domain.
pub open spec fn fits(a: i128, b: i128) -> bool {
    i128::MIN <= a + b <= i128::MAX
}

/// One step of the merge chain on the running value `a` and the next value `b`:
/// `(C, D)` is a merge `(0, A + B)` when the flavors agree, a pass-through `(A, B)` else.
pub open spec fn merge_step(a: Value, b: Value) -> (Value, Value) {
    if a.f == b.f {
        (Value { q: 0, f: zero_flavor() }, Value { q: (a.q + b.q) as i128, f: a.f })
    } else {
        (a, b)
    }
}

/// The merge chain over the first `n` values: the `C` values, the `D` values and
/// the running value after them.
pub open spec fn merge_run(s: Seq<Value>, n: int) -> (Seq<Value>, Seq<Value>, Value)
    decreases n,
{
    if n <= 1 {
        (Seq::empty(), Seq::empty(), s[0])
    } else {
        let (cs, ds, a) = merge_run(s, n - 1);
        let (c, d) = merge_step(a, s[n - 1]);
        (cs.push(c), ds.push(d), d)
    }
}

/// No merge among the first `n` values overflows.
pub open spec fn merge_fits(s: Seq<Value>, n: int) -> bool
    decreases n,
{
    if n <= 1 {
        true
    } else {
        let a = merge_run(s, n - 1).2;
        merge_fits(s, n - 1) && (a.f == s[n - 1].f ==> fits(a.q, s[n - 1].q))
    }
}

/// A chain that fits over `m` values fits over each shorter prefix.
pub proof fn lemma_merge_fits_prefix(s: Seq<Value>, n: int, m: int)
    requires
        n <= m,
        merge_fits(s, m),
    ensures
        merge_fits(s, n),
    decreases m - n,
{
    if n < m {
        lemma_merge_fits_prefix(s, n, m - 1);
    }
}

/// The mid values of the merge chain over `s`: every `D` but the last.
pub open spec fn merge_mid(s: Seq<Value>) -> Seq<Value> {
    merge_run(s, s.len() as int).1.drop_last()
}

/// The outputs of the merge chain over `s`: every `C`, then the last `D`.
pub open spec fn merge_outputs(s: Seq<Value>) -> Seq<Value> {
    let (cs, ds, a) = merge_run(s, s.len() as int);
    cs.push(a)
}

/// Runs the merge chain over a flavor-grouped sequence of at least two values:
/// returns the `k - 2` mid values and the `k` outputs, or `Overflow` when a merge
/// overflows. A single value makes no chain and is refused.
pub fn combine_by_flavor(inputs: &Vec<Value>) -> (r: Result<(Vec<Value>, Vec<Value>), CloakError>)
    requires
        inputs.len() >= 1,
    ensures
        inputs.len() == 1 ==> r == Err::<(Vec<Value>, Vec<Value>), CloakError>(
            CloakError::LengthMismatch,
        ),
        inputs.len() >= 2 ==> (merge_fits(inputs@, inputs@.len() as int) <==> r is Ok),
        inputs.len() >= 2 && r is Err ==> r == Err::<(Vec<Value>, Vec<Value>), CloakError>(
            CloakError::Overflow,
        ),
        r matches Ok((mid, outputs)) ==> mid@ == merge_mid(inputs@) && outputs@ == merge_outputs(
            inputs@,
        ),
{
    if inputs.len() < 2 {
        return Err(CloakError::LengthMismatch);
    }
    let k = inputs.len();
    let zero = flavor_from_u64(0);
    let mut mid: Vec<Value> = Vec::with_capacity(k - 1);
    let mut outputs: Vec<Value> = Vec::with_capacity(k);
    let mut a = inputs[0];
    let mut n: usize = 1;
    while n < k
        invariant
            1 <= n <= k,
            k == inputs.len(),
            zero == zero_flavor(),
            merge_fits(inputs@, n as int),
            merge_run(inputs@, n as int) == (outputs@, mid@, a),
        decreases k - n,
    {
        let b = inputs[n];
        let same = flavors_equal(&a.f, &b.f);

        // Merge: C = 0. Move: C = A.
        let mut c = a;
        assign_quantity(&mut c.q, &0, same);
        assign_flavor(&mut c.f, &zero, same);
        outputs.push(c);

        // Merge: D = (A.q + B.q, A.f). Move: D = B.
        let (sum, overflow) = match a.q.checked_add(b.q) {
            Some(x) => (x, false),
            None => (0i128, true),
        };
        if same && overflow {
            proof {
                if merge_fits(inputs@, k as int) {
                    lemma_merge_fits_prefix(inputs@, n + 1, k as int);
                }
            }
            return Err(CloakError::Overflow);
        }
        let mut d = b;
        assign_quantity(&mut d.q, &sum, same);
        assign_flavor(&mut d.f, &a.f, same);
        mid.push(d);

        a = d;
        n = n + 1;
    }
    // The last D is the chain's final output, not a feed into a further gate.
    let last = mid.pop();
    match last {
        Some(v) => outputs.push(v),
        None => {},
    }
    Ok((mid, outputs))
}

// ---------------------------------------------------------------------------
// Gate wiring and the relation each gate enforces
// ---------------------------------------------------------------------------

/// Whether input, mid and output sequences of these lengths can be wired into a
/// chain of gates: `k >= 2` outputs, `k` inputs and `k - 2` mid values.
pub open spec fn wiring_fits(n_in: int, n_mid: int, n_out: int) -> bool {
    n_out >= 2 && n_in == n_out && n_mid + 2 == n_out
}

/// The four values `(A, B, C, D)` of gate `i`: `A` is the first input for the first
/// gate and the previous mid value after it, `B` the next input, `C` output `i`,
/// `D` mid value `i`, or the last output for the last gate.
pub open spec fn gate_at<T>(ins: Seq<T>, mid: Seq<T>, outs: Seq<T>, i: int) -> (T, T, T, T) {
    let k = outs.len();
    (
        if i == 0 { ins[0] } else { mid[i - 1] },
        ins[i + 1],
        outs[i],
        if i < k - 2 { mid[i] } else { outs[k - 1] },
    )
}

/// Lists the `k - 1` gates that chain `mix_in` through `mix_mid` to `mix_out`, in
/// the order in which they are to be added; fails when the lengths do not fit.
pub fn mix_gate_wiring<T: Copy>(mix_in: &Vec<T>, mix_mid: &Vec<T>, mix_out: &Vec<T>) -> (r:
    Result<Vec<(T, T, T, T)>, CloakError>)
    ensures
        wiring_fits(mix_in@.len() as int, mix_mid@.len() as int, mix_out@.len() as int) <==> r is Ok,
        r is Err ==> r == Err::<Vec<(T, T, T, T)>, CloakError>(CloakError::LengthMismatch),
        r matches Ok(g) ==> g@.len() + 1 == mix_out@.len() && forall|i: int|
            0 <= i < g@.len() ==> #[trigger] g@[i] == gate_at(mix_in@, mix_mid@, mix_out@, i),
{
    let k = mix_out.len();
    if k < 2 || mix_in.len() != k || mix_mid.len() != k - 2 {
        return Err(CloakError::LengthMismatch);
    }
    let first_in = mix_in[0];
    let last_out = mix_out[k - 1];
    let mut gates: Vec<(T, T, T, T)> = Vec::with_capacity(k - 1);
    let mut i: usize = 0;
    while i + 1 < k
        invariant
            k == mix_out.len(),
            k == mix_in.len(),
            mix_mid.len() + 2 == k,
            i < k,
            first_in == mix_in@[0],
            last_out == mix_out@[k - 1],
            gates@.len() == i,
            forall|g: int|
                0 <= g < i ==> #[trigger] gates@[g] == gate_at(mix_in@, mix_mid@, mix_out@, g),
        decreases k - i,
    {
        let a = if i == 0 {
            first_in
        } else {
            mix_mid[i - 1]
        };
        let d = if i + 2 < k {
            mix_mid[i]
        } else {
            last_out
        };
        gates.push((a, mix_in[i + 1], mix_out[i], d));
        i = i + 1;
    }
    Ok(gates)
}

/// The relation one cloak gate enforces on `(A, B, C, D)`: a pass-through
/// (`C = A`, `D = B`) or a merge of two values of one flavor (`C.q = 0`,
/// `D = (A.q + B.q, A.f)`; the flavor of `C` is then free).
pub open spec fn gate_relation(a: Value, b: Value, c: Value, d: Value) -> bool {
    (c == a && d == b) || (c.q == 0 && a.f == b.f && d.q == a.q + b.q && d.f == a.f)
}

/// Whether the witness values `(A, B, C, D)` satisfy the cloak gate.
pub fn mix_holds(a: &Value, b: &Value, c: &Value, d: &Value) -> (r: bool)
    ensures
        r == gate_relation(*a, *b, *c, *d),
{
    let pass = c.q == a.q && d.q == b.q && flavors_equal(&c.f, &a.f) && flavors_equal(
        &d.f,
        &b.f,
    );
    let sum_ok = match a.q.checked_add(b.q) {
        Some(x) => d.q == x,
        None => false,
    };
    let merge = c.q == 0 && sum_ok && flavors_equal(&a.f, &b.f) && flavors_equal(&d.f, &a.f);
    pass || merge
}

/// The whole chain of gates over input, mid and output witnesses holds.
pub open spec fn chain_relation(ins: Seq<Value>, mid: Seq<Value>, outs: Seq<Value>) -> bool {
    &&& wiring_fits(ins.len() as int, mid.len() as int, outs.len() as int)
    &&& forall|i: int|
        0 <= i < outs.len() - 1 ==> {
            let (a, b, c, d) = #[trigger] gate_at(ins, mid, outs, i);
            gate_relation(a, b, c, d)
        }
}

/// Whether the input, mid and output witnesses fit the chain's shape and satisfy
/// every gate of it.
pub fn mix_chain_holds(ins: &Vec<Value>, mid: &Vec<Value>, outs: &Vec<Value>) -> (r: bool)
    ensures
        r == chain_relation(ins@, mid@, outs@),
{
    let wiring = mix_gate_wiring(ins, mid, outs);
    match wiring {
        Err(_) => false,
        Ok(gates) => {
            let mut i: usize = 0;
            while i < gates.len()
                invariant
                    gates@.len() + 1 == outs@.len(),
                    wiring_fits(ins.len() as int, mid.len() as int, outs.len() as int),
                    forall|g: int|
                        0 <= g < gates@.len() ==> #[trigger] gates@[g] == gate_at(
                            ins@,
                            mid@,
                            outs@,
                            g,
                        ),
                    forall|g: int|
                        0 <= g < i ==> {
                            let (a, b, c, d) = #[trigger] gate_at(ins@, mid@, outs@, g);
                            gate_relation(a, b, c, d)
                        },
                decreases gates.len() - i,
            {
                let (a, b, c, d) = gates[i];
                if !mix_holds(&a, &b, &c, &d) {
                    return false;
                }
                i = i + 1;
            }
            true
        },
    }
}

// ---------------------------------------------------------------------------
// Laws of the merge chain
// ---------------------------------------------------------------------------

/// The shape of the merge chain over `m` values: `m - 1` values `C` and `D`, where
/// step `i` is the merge step on the running value after `i + 1` values and value
/// `i + 1`, and that running value is the first value or the previous `D`.
pub proof fn lemma_merge_run_index(s: Seq<Value>, m: int, i: int)
    requires
        2 <= m <= s.len(),
        0 <= i < m - 1,
    ensures
        merge_run(s, m).0.len() == m - 1,
        merge_run(s, m).1.len() == m - 1,
        merge_run(s, m).2 == merge_run(s, m).1[m - 2],
        merge_run(s, m).0[i] == merge_step(merge_run(s, i + 1).2, s[i + 1]).0,
        merge_run(s, m).1[i] == merge_step(merge_run(s, i + 1).2, s[i + 1]).1,
        merge_run(s, i + 1).2 == if i == 0 {
            s[0]
        } else {
            merge_run(s, m).1[i - 1]
        },
    decreases m,
{
    assert(merge_run(s, 1) == (Seq::<Value>::empty(), Seq::<Value>::empty(), s[0]));
    if m > 2 {
        if i < m - 2 {
            lemma_merge_run_index(s, m - 1, i);
        } else {
            lemma_merge_run_index(s, m - 1, 0);
            if i > 0 {
                lemma_merge_run_index(s, m - 1, i - 1);
            }
        }
    }
}

/// The merge chain's work is fixed by the number of values alone: over `k >= 2`
/// values it takes exactly `k - 1` merge steps, step `i` on the running value and
/// value `i + 1`, each one flavor comparison and one masked choice between a merge
/// and a pass-through, whatever the flavors are; it yields `k - 2` mid values and
/// `k` outputs.
pub proof fn lemma_merge_chain_steps(s: Seq<Value>)
    requires
        s.len() >= 2,
    ensures
        merge_run(s, s.len() as int).0.len() == s.len() - 1,
        merge_run(s, s.len() as int).1.len() == s.len() - 1,
        forall|i: int|
            0 <= i < s.len() - 1 ==> (#[trigger] merge_run(s, s.len() as int).0[i], merge_run(
                s,
                s.len() as int,
            ).1[i]) == merge_step(merge_run(s, i + 1).2, s[i + 1]),
        merge_mid(s).len() == s.len() - 2,
        merge_outputs(s).len() == s.len(),
{
    let k = s.len() as int;
    lemma_merge_run_index(s, k, 0);
    assert forall|i: int| 0 <= i < k - 1 implies (#[trigger] merge_run(s, k).0[i], merge_run(
        s,
        k,
    ).1[i]) == merge_step(merge_run(s, i + 1).2, s[i + 1]) by {
        lemma_merge_run_index(s, k, i);
    }
}

/// Completeness of the merge chain: whenever no merge overflows, the mid values
/// and outputs that the merge chain builds from a sequence of at least two values
/// satisfy every gate of the chain that starts from that sequence.
pub proof fn lemma_merge_chain_satisfies_gates(s: Seq<Value>)
    requires
        s.len() >= 2,
        merge_fits(s, s.len() as int),
    ensures
        chain_relation(s, merge_mid(s), merge_outputs(s)),
{
    let k = s.len() as int;
    lemma_merge_run_index(s, k, 0);
    assert forall|i: int| 0 <= i < k - 1 implies {
        let (a, b, c, d) = #[trigger] gate_at(s, merge_mid(s), merge_outputs(s), i);
        gate_relation(a, b, c, d)
    } by {
        lemma_merge_run_index(s, k, i);
        lemma_merge_fits_prefix(s, i + 2, k);
    }
}

/// The quantity that a value holds of flavor `x`.
pub open spec fn qty_of(v: Value, x: Scalar) -> int {
    if v.f == x {
        v.q as int
    } else {
        0
    }
}

/// The total quantity of flavor `x` over a sequence of values.
pub open spec fn flavor_total(s: Seq<Value>, x: Scalar) -> int
    decreases s.len(),
{
    if s.len() == 0 {
        0
    } else {
        flavor_total(s.drop_last(), x) + qty_of(s.last(), x)
    }
}

proof fn lemma_chain_prefix(ins: Seq<Value>, mid: Seq<Value>, outs: Seq<Value>, x: Scalar, n: int)
    requires
        chain_relation(ins, mid, outs),
        0 <= n < outs.len(),
    ensures
        flavor_total(ins.take(n + 1), x) == flavor_total(outs.take(n), x) + qty_of(
            if n == 0 {
                ins[0]
            } else {
                gate_at(ins, mid, outs, n - 1).3
            },
            x,
        ),
    decreases n,
{
    if n == 0 {
        assert(ins.take(1).drop_last() =~= Seq::<Value>::empty());
        assert(outs.take(0) =~= Seq::<Value>::empty());
    } else {
        lemma_chain_prefix(ins, mid, outs, x, n - 1);
        assert(ins.take(n + 1).drop_last() =~= ins.take(n));
        assert(outs.take(n).drop_last() =~= outs.take(n - 1));
        let g = gate_at(ins, mid, outs, n - 1);
        let (a, b, c, d) = g;
        assert(gate_relation(a, b, c, d));
    }
}

/// Conservation: whenever input, mid and output values satisfy every gate of the
/// chain, each flavor's total quantity over the outputs equals its total over
/// the inputs.
pub proof fn lemma_chain_conserves_flavors(
    ins: Seq<Value>,
    mid: Seq<Value>,
    outs: Seq<Value>,
    x: Scalar,
)
    requires
        chain_relation(ins, mid, outs),
    ensures
        flavor_total(ins, x) == flavor_total(outs, x),
{
    let k = outs.len() as int;
    lemma_chain_prefix(ins, mid, outs, x, k - 1);
    assert(ins.take(k) =~= ins);
    assert(outs.take(k).drop_last() =~= outs.take(k - 1));
    assert(outs.take(k) =~= outs);
}

proof fn lemma_flavor_total_remove(t: Seq<Value>, idx: int, x: Scalar)
    requires
        0 <= idx < t.len(),
    ensures
        flavor_total(t, x) == flavor_total(t.remove(idx), x) + qty_of(t[idx], x),
    decreases t.len(),
{
    if idx == t.len() - 1 {
        assert(t.remove(idx) =~= t.drop_last());
    } else {
        lemma_flavor_total_remove(t.drop_last(), idx, x);
        assert(t.drop_last().remove(idx) =~= t.remove(idx).drop_last());
        assert(t.remove(idx).last() == t.last());
    }
}

/// Rearranging values keeps each flavor's total quantity.
pub proof fn lemma_flavor_total_rearranged(s: Seq<Value>, t: Seq<Value>, x: Scalar)
    requires
        s.to_multiset() == t.to_multiset(),
    ensures
        flavor_total(s, x) == flavor_total(t, x),
    decreases s.len(),
{
    broadcast use vstd::seq_lib::to_multiset_build, vstd::seq_lib::to_multiset_remove,
        vstd::seq_lib::to_multiset_contains, vstd::seq_lib::to_multiset_len,
        vstd::multiset::group_multiset_axioms;

    if s.len() == 0 {
        assert(t.to_multiset().len() == 0);
        assert(t.len() == 0);
    } else {
        let v = s.last();
        let s1 = s.drop_last();
        assert(s1.push(v) =~= s);
        assert(s.to_multiset() == s1.to_multiset().insert(v));
        assert(t.to_multiset().count(v) > 0);
        assert(t.contains(v));
        let idx = choose|idx: int| 0 <= idx < t.len() && t[idx] == v;
        let t1 = t.remove(idx);
        assert(t1.to_multiset() == t.to_multiset().remove(v));
        assert(s1.to_multiset() =~= t1.to_multiset());
        lemma_flavor_total_rearranged(s1, t1, x);
        lemma_flavor_total_remove(t, idx, x);
    }
}

// ---------------------------------------------------------------------------
// The witness side of the k-value cloak
// ---------------------------------------------------------------------------

/// The concrete values of all inputs, when every input has one.
pub fn collect_assignments(inputs: &Vec<Option<Value>>) -> (r: Option<Vec<Value>>)
    ensures
        (forall|i: int| 0 <= i < inputs@.len() ==> (#[trigger] inputs@[i]) is Some) <==> r is Some,
        r matches Some(v) ==> v@.len() == inputs@.len() && forall|i: int|
            0 <= i < inputs@.len() ==> inputs@[i] == Some(#[trigger] v@[i]),
{
    let mut values: Vec<Value> = Vec::with_capacity(inputs.len());
    let mut i: usize = 0;
    while i < inputs.len()
        invariant
            i <= inputs.len(),
            values@.len() == i,
            forall|j: int| 0 <= j < i ==> inputs@[j] == Some(#[trigger] values@[j]),
        decreases inputs.len() - i,
    {
        match inputs[i] {
            Some(v) => values.push(v),
            None => {
                return None;
            },
        }
        i = i + 1;
    }
    assert forall|j: int| 0 <= j < inputs@.len() implies (#[trigger] inputs@[j]) is Some by {
        assert(inputs@[j] == Some(values@[j]));
    }
    Some(values)
}

/// The ordered inputs, mid values and outputs of a cloak over `inputs`: for one
/// value the input itself with no mid value and no gate; for more, the sorter's
/// grouping followed by the merge chain over it.
pub fn cloak_values(inputs: &Vec<Value>) -> (r: Result<(Vec<Value>, Vec<Value>, Vec<Value>), CloakError>)
    requires
        inputs.len() >= 1,
    ensures
        inputs.len() == 1 ==> (r matches Ok((ordered, mid, outputs)) && ordered@ == inputs@
            && mid@.len() == 0 && outputs@ == inputs@),
        inputs.len() >= 2 ==> (r is Ok <==> merge_fits(grouped(inputs@), inputs.len() as int)),
        inputs.len() >= 2 ==> (r matches Ok((ordered, mid, outputs)) ==> ordered@ == grouped(
            inputs@,
        ) && mid@ == merge_mid(grouped(inputs@)) && outputs@ == merge_outputs(grouped(inputs@))),
        r is Err ==> r == Err::<(Vec<Value>, Vec<Value>, Vec<Value>), CloakError>(
            CloakError::Overflow,
        ),
{
    if inputs.len() == 1 {
        return Ok((inputs.clone(), Vec::new(), inputs.clone()));
    }
    let ordered = order_by_flavor(inputs);
    proof {
        lemma_grouped_len(inputs@);
    }
    match combine_by_flavor(&ordered) {
        Ok((mid, outputs)) => Ok((ordered, mid, outputs)),
        Err(e) => Err(e),
    }
}

/// The witness side of the cloak is sound and complete on every input that does
/// not overflow: its ordered inputs, mid values and outputs satisfy every gate of
/// the chain, and each flavor's total over the outputs equals its total over the
/// inputs as given.
pub proof fn lemma_cloak_values_conserve(s: Seq<Value>, x: Scalar)
    requires
        s.len() >= 2,
        merge_fits(grouped(s), s.len() as int),
    ensures
        chain_relation(grouped(s), merge_mid(grouped(s)), merge_outputs(grouped(s))),
        flavor_total(s, x) == flavor_total(merge_outputs(grouped(s)), x),
{
    let g = grouped(s);
    lemma_grouped_len(s);
    lemma_grouped_is_adjacent_rearrangement(s);
    lemma_merge_chain_satisfies_gates(g);
    lemma_chain_conserves_flavors(g, merge_mid(g), merge_outputs(g), x);
    lemma_flavor_total_rearranged(s, g, x);
}

} // verus!
