use vstd::prelude::*;
use crate::text::{Token, token_views};

verus! {

/// Represents a single edit operation in the alignment between reference and hypothesis.
#[derive(Debug, Clone, PartialEq, Eq, Structural)]
pub enum EditOp {
    /// Reference and hypothesis tokens match at this index.
    Equal {
        /// Index into the reference token list.
        index: usize,
    },
    /// Reference token was substituted by hypothesis token.
    Substitute {
        /// Index into the reference token list.
        ref_index: usize,
        /// Index into the hypothesis token list.
        hyp_index: usize,
    },
    /// Hypothesis token was inserted (not in reference).
    Insert {
        /// Index into the hypothesis token list.
        hyp_index: usize,
    },
    /// Reference token was deleted (not in hypothesis).
    Delete {
        /// Index into the reference token list.
        ref_index: usize,
    },
}

impl EditOp {
    /// An operation equal to this one.
    pub(crate) fn duplicate(&self) -> (r: EditOp)
        ensures
            r == *self,
    {
        match self {
            EditOp::Equal { index } => EditOp::Equal { index: *index },
            EditOp::Substitute { ref_index, hyp_index } => EditOp::Substitute {
                ref_index: *ref_index,
                hyp_index: *hyp_index,
            },
            EditOp::Insert { hyp_index } => EditOp::Insert { hyp_index: *hyp_index },
            EditOp::Delete { ref_index } => EditOp::Delete { ref_index: *ref_index },
        }
    }

    /// Returns `true` if this is an equal (match) operation.
    pub fn is_equal(&self) -> (r: bool)
        ensures
            r == (*self is Equal),
    {
        matches!(self, EditOp::Equal { .. })
    }

    /// Returns `true` if this is any error operation (substitution, insertion, or deletion).
    pub fn is_error(&self) -> (r: bool)
        ensures
            r == !(*self is Equal),
    {
        !self.is_equal()
    }

    /// Returns `true` if this is a substitution operation.
    pub fn is_substitute(&self) -> (r: bool)
        ensures
            r == (*self is Substitute),
    {
        matches!(self, EditOp::Substitute { .. })
    }

    /// Returns `true` if this is an insertion operation.
    pub fn is_insert(&self) -> (r: bool)
        ensures
            r == (*self is Insert),
    {
        matches!(self, EditOp::Insert { .. })
    }

    /// Returns `true` if this is a deletion operation.
    pub fn is_delete(&self) -> (r: bool)
        ensures
            r == (*self is Delete),
    {
        matches!(self, EditOp::Delete { .. })
    }
}

} // verus!

verus! {

/// Cost of aligning `x` against `y` in one step: 0 when they match, 1 otherwise.
pub open spec fn subst_cost<A>(x: A, y: A) -> nat {
    if x == y { 0 } else { 1 }
}

/// Smallest of three naturals.
pub open spec fn min3(x: nat, y: nat, z: nat) -> nat {
    if x <= y && x <= z { x } else if y <= z { y } else { z }
}

/// Levenshtein distance between the first `i` items of `a` and the first `j` items of `b`.
pub open spec fn lev<A>(a: Seq<A>, b: Seq<A>, i: nat, j: nat) -> nat
    decreases i + j,
{
    if i == 0 {
        j
    } else if j == 0 {
        i
    } else {
        min3(
            lev(a, b, (i - 1) as nat, j) + 1,
            lev(a, b, i, (j - 1) as nat) + 1,
            lev(a, b, (i - 1) as nat, (j - 1) as nat) + subst_cost(a[i - 1], b[j - 1]),
        )
    }
}

/// Levenshtein distance between two whole sequences.
pub open spec fn edit_distance_of<A>(a: Seq<A>, b: Seq<A>) -> nat {
    lev(a, b, a.len(), b.len())
}

/// One more item of `a` costs at most one more edit.
pub proof fn lemma_lev_step_i<A>(a: Seq<A>, b: Seq<A>, i: nat, j: nat)
    ensures
        lev(a, b, i + 1, j) <= lev(a, b, i, j) + 1,
{
}

/// One more item of `b` costs at most one more edit.
pub proof fn lemma_lev_step_j<A>(a: Seq<A>, b: Seq<A>, i: nat, j: nat)
    ensures
        lev(a, b, i, j + 1) <= lev(a, b, i, j) + 1,
{
}

/// One more item of each costs at most the cost of pairing them.
pub proof fn lemma_lev_step_diag<A>(a: Seq<A>, b: Seq<A>, i: nat, j: nat)
    ensures
        lev(a, b, i + 1, j + 1) <= lev(a, b, i, j) + subst_cost(a[i as int], b[j as int]),
{
}

/// The distance is at least the difference of the lengths.
pub proof fn lemma_lev_lower_bound<A>(a: Seq<A>, b: Seq<A>, i: nat, j: nat)
    ensures
        lev(a, b, i, j) >= i - j,
        lev(a, b, i, j) >= j - i,
    decreases i + j,
{
    if i > 0 && j > 0 {
        lemma_lev_lower_bound(a, b, (i - 1) as nat, j);
        lemma_lev_lower_bound(a, b, i, (j - 1) as nat);
        lemma_lev_lower_bound(a, b, (i - 1) as nat, (j - 1) as nat);
    }
}

/// The distance never exceeds the sum of the lengths.
pub proof fn lemma_lev_upper_bound<A>(a: Seq<A>, b: Seq<A>, i: nat, j: nat)
    ensures
        lev(a, b, i, j) <= i + j,
    decreases i + j,
{
    if i > 0 && j > 0 {
        lemma_lev_upper_bound(a, b, (i - 1) as nat, j);
    }
}

/// Dropping the last item of `b` lowers the distance by at most one.
pub proof fn lemma_lev_drop_j<A>(a: Seq<A>, b: Seq<A>, i: nat, j: nat)
    requires
        j >= 1,
    ensures
        lev(a, b, i, (j - 1) as nat) <= lev(a, b, i, j) + 1,
    decreases i + j,
{
    if i > 0 && j > 1 {
        lemma_lev_drop_j(a, b, (i - 1) as nat, j);
        lemma_lev_step_i(a, b, (i - 1) as nat, (j - 1) as nat);
    } else if i > 0 && j == 1 {
        lemma_lev_drop_j(a, b, (i - 1) as nat, j);
    }
}

/// Dropping the last item of `a` lowers the distance by at most one.
pub proof fn lemma_lev_drop_i<A>(a: Seq<A>, b: Seq<A>, i: nat, j: nat)
    requires
        i >= 1,
    ensures
        lev(a, b, (i - 1) as nat, j) <= lev(a, b, i, j) + 1,
    decreases i + j,
{
    if j > 0 && i > 1 {
        lemma_lev_drop_i(a, b, i, (j - 1) as nat);
        lemma_lev_step_j(a, b, (i - 1) as nat, (j - 1) as nat);
    } else if j > 0 && i == 1 {
        lemma_lev_drop_i(a, b, i, (j - 1) as nat);
    }
}

/// When the last items match, they are aligned for free.
pub proof fn lemma_lev_match<A>(a: Seq<A>, b: Seq<A>, i: nat, j: nat)
    requires
        i >= 1,
        j >= 1,
        a[i - 1] == b[j - 1],
    ensures
        lev(a, b, i, j) == lev(a, b, (i - 1) as nat, (j - 1) as nat),
{
    lemma_lev_drop_j(a, b, (i - 1) as nat, j);
    lemma_lev_drop_i(a, b, i, (j - 1) as nat);
}

} // verus!

verus! {

/// Whether `op` is a well-formed step at position `(i, j)`: the reference
/// position `i` and hypothesis position `j` it consumes exist, match for
/// `Equal` and differ for `Substitute`.
pub open spec fn step_ok<A>(a: Seq<A>, b: Seq<A>, i: int, j: int, op: EditOp) -> bool {
    match op {
        EditOp::Equal { index } => index == i && 0 <= i < a.len() && 0 <= j < b.len() && a[i]
            == b[j],
        EditOp::Substitute { ref_index, hyp_index } => ref_index == i && hyp_index == j && 0 <= i
            < a.len() && 0 <= j < b.len() && a[i] != b[j],
        EditOp::Insert { hyp_index } => hyp_index == j && 0 <= j < b.len() && 0 <= i <= a.len(),
        EditOp::Delete { ref_index } => ref_index == i && 0 <= i < a.len() && 0 <= j <= b.len(),
    }
}

/// How far `op` advances in the reference.
pub open spec fn ref_advance(op: EditOp) -> int {
    match op {
        EditOp::Insert { .. } => 0,
        _ => 1,
    }
}

/// How far `op` advances in the hypothesis.
pub open spec fn hyp_advance(op: EditOp) -> int {
    match op {
        EditOp::Delete { .. } => 0,
        _ => 1,
    }
}

/// Whether `ops`, applied from reference position `i` and hypothesis position `j`,
/// consumes exactly the rest of both sequences.
pub open spec fn aligns_from<A>(a: Seq<A>, b: Seq<A>, ops: Seq<EditOp>, i: int, j: int) -> bool
    decreases ops.len(),
{
    if ops.len() == 0 {
        i == a.len() && j == b.len()
    } else {
        step_ok(a, b, i, j, ops[0]) && aligns_from(
            a,
            b,
            ops.drop_first(),
            i + ref_advance(ops[0]),
            j + hyp_advance(ops[0]),
        )
    }
}

/// Whether `ops` is an alignment of the whole of `a` against the whole of `b`.
pub open spec fn is_alignment<A>(a: Seq<A>, b: Seq<A>, ops: Seq<EditOp>) -> bool {
    aligns_from(a, b, ops, 0, 0)
}

/// Number of `Equal` operations.
pub open spec fn count_hits(ops: Seq<EditOp>) -> nat
    decreases ops.len(),
{
    if ops.len() == 0 {
        0
    } else {
        count_hits(ops.drop_last()) + if ops.last() is Equal { 1nat } else { 0nat }
    }
}

/// Number of `Substitute` operations.
pub open spec fn count_subs(ops: Seq<EditOp>) -> nat
    decreases ops.len(),
{
    if ops.len() == 0 {
        0
    } else {
        count_subs(ops.drop_last()) + if ops.last() is Substitute { 1nat } else { 0nat }
    }
}

/// Number of `Insert` operations.
pub open spec fn count_ins(ops: Seq<EditOp>) -> nat
    decreases ops.len(),
{
    if ops.len() == 0 {
        0
    } else {
        count_ins(ops.drop_last()) + if ops.last() is Insert { 1nat } else { 0nat }
    }
}

/// Number of `Delete` operations.
pub open spec fn count_dels(ops: Seq<EditOp>) -> nat
    decreases ops.len(),
{
    if ops.len() == 0 {
        0
    } else {
        count_dels(ops.drop_last()) + if ops.last() is Delete { 1nat } else { 0nat }
    }
}

/// Number of error operations (substitutions, insertions and deletions).
pub open spec fn count_errors(ops: Seq<EditOp>) -> nat {
    count_subs(ops) + count_ins(ops) + count_dels(ops)
}

/// The counts of a concatenation are the sums of the counts.
pub proof fn lemma_counts_concat(s: Seq<EditOp>, t: Seq<EditOp>)
    ensures
        count_hits(s + t) == count_hits(s) + count_hits(t),
        count_subs(s + t) == count_subs(s) + count_subs(t),
        count_ins(s + t) == count_ins(s) + count_ins(t),
        count_dels(s + t) == count_dels(s) + count_dels(t),
    decreases t.len(),
{
    if t.len() == 0 {
        assert(s + t =~= s);
    } else {
        lemma_counts_concat(s, t.drop_last());
        assert((s + t).drop_last() =~= s + t.drop_last());
        assert((s + t).last() == t.last());
    }
}

/// The counts of a single operation.
pub proof fn lemma_counts_single(op: EditOp)
    ensures
        count_hits(seq![op]) == if op is Equal { 1nat } else { 0nat },
        count_subs(seq![op]) == if op is Substitute { 1nat } else { 0nat },
        count_ins(seq![op]) == if op is Insert { 1nat } else { 0nat },
        count_dels(seq![op]) == if op is Delete { 1nat } else { 0nat },
{
    let s = seq![op];
    let e = Seq::<EditOp>::empty();
    assert(s.len() == 1);
    assert(s.drop_last() =~= e);
    assert(s.last() == op);
    assert(count_hits(e) == 0);
    assert(count_subs(e) == 0);
    assert(count_ins(e) == 0);
    assert(count_dels(e) == 0);
}

/// The counts of a sequence split into its first operation and the rest.
pub proof fn lemma_counts_first(ops: Seq<EditOp>)
    requires
        ops.len() > 0,
    ensures
        count_hits(ops) == count_hits(seq![ops[0]]) + count_hits(ops.drop_first()),
        count_subs(ops) == count_subs(seq![ops[0]]) + count_subs(ops.drop_first()),
        count_ins(ops) == count_ins(seq![ops[0]]) + count_ins(ops.drop_first()),
        count_dels(ops) == count_dels(seq![ops[0]]) + count_dels(ops.drop_first()),
{
    lemma_counts_concat(seq![ops[0]], ops.drop_first());
    assert(seq![ops[0]] + ops.drop_first() =~= ops);
    assert(seq![ops[0]].drop_last() =~= Seq::<EditOp>::empty());
}

/// An alignment from `(i, j)` accounts for every remaining token: each
/// remaining reference token is hit, substituted or deleted, and each
/// remaining hypothesis token is hit, substituted or inserted.
pub proof fn lemma_aligns_from_counts<A>(a: Seq<A>, b: Seq<A>, ops: Seq<EditOp>, i: int, j: int)
    requires
        aligns_from(a, b, ops, i, j),
    ensures
        count_hits(ops) + count_subs(ops) + count_dels(ops) == a.len() - i,
        count_hits(ops) + count_subs(ops) + count_ins(ops) == b.len() - j,
    decreases ops.len(),
{
    if ops.len() > 0 {
        lemma_aligns_from_counts(
            a,
            b,
            ops.drop_first(),
            i + ref_advance(ops[0]),
            j + hyp_advance(ops[0]),
        );
        lemma_counts_first(ops);
        lemma_counts_single(ops[0]);
    }
}

/// An alignment from `(i, j)` costs at least the growth of the distance from `(i, j)` to the end.
pub proof fn lemma_aligns_from_cost<A>(a: Seq<A>, b: Seq<A>, ops: Seq<EditOp>, i: int, j: int)
    requires
        aligns_from(a, b, ops, i, j),
        0 <= i,
        0 <= j,
    ensures
        count_errors(ops) + lev(a, b, i as nat, j as nat) >= edit_distance_of(a, b),
    decreases ops.len(),
{
    if ops.len() > 0 {
        let op = ops[0];
        let ni = i + ref_advance(op);
        let nj = j + hyp_advance(op);
        lemma_aligns_from_cost(a, b, ops.drop_first(), ni, nj);
        lemma_counts_first(ops);
        lemma_counts_single(ops[0]);
        match op {
            EditOp::Equal { .. } => {
                lemma_lev_step_diag(a, b, i as nat, j as nat);
            },
            EditOp::Substitute { .. } => {
                lemma_lev_step_diag(a, b, i as nat, j as nat);
            },
            EditOp::Insert { .. } => {
                lemma_lev_step_j(a, b, i as nat, j as nat);
            },
            EditOp::Delete { .. } => {
                lemma_lev_step_i(a, b, i as nat, j as nat);
            },
        }
    }
}

/// Every alignment of `a` against `b` makes at least as many errors as
/// the Levenshtein distance between them.
pub proof fn lemma_alignment_cost_at_least_distance<A>(a: Seq<A>, b: Seq<A>, ops: Seq<EditOp>)
    requires
        is_alignment(a, b, ops),
    ensures
        count_errors(ops) >= edit_distance_of(a, b),
{
    lemma_aligns_from_cost(a, b, ops, 0, 0);
}

/// In every alignment of `a` against `b`, hits, substitutions and deletions
/// add up to the length of `a`, and hits, substitutions and insertions to the
/// length of `b`.
pub proof fn lemma_alignment_counts<A>(a: Seq<A>, b: Seq<A>, ops: Seq<EditOp>)
    requires
        is_alignment(a, b, ops),
    ensures
        count_hits(ops) + count_subs(ops) + count_dels(ops) == a.len(),
        count_hits(ops) + count_subs(ops) + count_ins(ops) == b.len(),
{
    lemma_aligns_from_counts(a, b, ops, 0, 0);
}

} // verus!

verus! {

/// Smallest of three machine integers.
fn min3_usize(x: usize, y: usize, z: usize) -> (r: usize)
    ensures
        r == min3(x as nat, y as nat, z as nat),
{
    if x <= y && x <= z {
        x
    } else if y <= z {
        y
    } else {
        z
    }
}

/// Compute the Levenshtein edit distance between two token sequences.
///
/// Uses single-row dynamic programming for O(min(M,N)) space complexity.
pub fn edit_distance<S: Token>(reference: &[S], hypothesis: &[S]) -> (d: usize)
    requires
        reference@.len() + hypothesis@.len() <= usize::MAX,
    ensures
        d == edit_distance_of(token_views(reference@), token_views(hypothesis@)),
{
    let ghost a = token_views(reference@);
    let ghost b = token_views(hypothesis@);
    let m = reference.len();
    let n = hypothesis.len();
    if m == 0 {
        return n;
    }
    if n == 0 {
        return m;
    }
    let mut prev_row: Vec<usize> = Vec::with_capacity(n + 1);
    let mut k: usize = 0;
    while k <= n
        invariant
            k <= n + 1,
            n + 1 <= usize::MAX,
            prev_row@.len() == k,
            forall|t: int| 0 <= t < k ==> prev_row@[t] == t,
        decreases n + 1 - k,
    {
        prev_row.push(k);
        k += 1;
    }
    assert forall|t: int| 0 <= t <= n implies prev_row@[t] == lev(a, b, 0, t as nat) by {}
    let mut curr_row: Vec<usize> = vec![0; n + 1];
    let mut i: usize = 1;
    while i <= m
        invariant
            1 <= i <= m + 1,
            1 <= n,
            m == reference@.len(),
            n == hypothesis@.len(),
            a == token_views(reference@),
            b == token_views(hypothesis@),
            m + n <= usize::MAX,
            prev_row@.len() == n + 1,
            curr_row@.len() == n + 1,
            forall|t: int| 0 <= t <= n ==> prev_row@[t] == lev(a, b, (i - 1) as nat, t as nat),
        decreases m + 1 - i,
    {
        curr_row.set(0, i);
        let mut j: usize = 1;
        while j <= n
            invariant
                1 <= i <= m,
                1 <= j <= n + 1,
                m == reference@.len(),
                n == hypothesis@.len(),
                a == token_views(reference@),
                b == token_views(hypothesis@),
                m + n <= usize::MAX,
                prev_row@.len() == n + 1,
                curr_row@.len() == n + 1,
                forall|t: int| 0 <= t <= n ==> prev_row@[t] == lev(a, b, (i - 1) as nat, t as nat),
                forall|t: int| 0 <= t < j ==> curr_row@[t] == lev(a, b, i as nat, t as nat),
            decreases n + 1 - j,
        {
            proof {
                lemma_lev_upper_bound(a, b, (i - 1) as nat, j as nat);
                lemma_lev_upper_bound(a, b, i as nat, (j - 1) as nat);
                lemma_lev_upper_bound(a, b, (i - 1) as nat, (j - 1) as nat);
            }
            let same = reference[i - 1].same_text(&hypothesis[j - 1]);
            let cost: usize = if same { 0 } else { 1 };
            assert(cost == subst_cost(a[i - 1], b[j - 1]));
            let val = min3_usize(prev_row[j] + 1, curr_row[j - 1] + 1, prev_row[j - 1] + cost);
            curr_row.set(j, val);
            j += 1;
        }
        std::mem::swap(&mut prev_row, &mut curr_row);
        i += 1;
    }
    prev_row[n]
}

} // verus!

verus! {

/// Lowest hypothesis position kept in reference row `i` of a band of half-width `band`.
pub open spec fn band_lo(i: int, band: int) -> int {
    if i >= band { i - band } else { 0 }
}

/// Highest hypothesis position kept in reference row `i` of a band of
/// half-width `band`, for a hypothesis of length `n`.
pub open spec fn band_hi(i: int, band: int, n: int) -> int {
    if i + band <= n { i + band } else { n }
}

/// Whether cell `(i, j)` lies inside the band.
pub open spec fn in_band(i: int, j: int, band: int, n: int) -> bool {
    band_lo(i, band) <= j <= band_hi(i, band, n)
}

/// Smaller of two naturals.
pub open spec fn min2(x: nat, y: nat) -> nat {
    if x <= y { x } else { y }
}

/// The banded Wagner-Fischer table: the cheapest alignment of the first `i`
/// items of `a` with the first `j` items of `b` among those that only pass
/// through cells of the band.
pub open spec fn banded<A>(a: Seq<A>, b: Seq<A>, band: nat, i: nat, j: nat) -> nat
    decreases i, j,
{
    if i == 0 {
        j
    } else if j == 0 {
        i
    } else {
        let diag = banded(a, b, band, (i - 1) as nat, (j - 1) as nat) + subst_cost(
            a[i - 1],
            b[j - 1],
        );
        let with_up = if in_band(i - 1, j as int, band as int, b.len() as int) {
            min2(diag, banded(a, b, band, (i - 1) as nat, j) + 1)
        } else {
            diag
        };
        if j > band_lo(i as int, band as int) {
            min2(with_up, banded(a, b, band, i, (j - 1) as nat) + 1)
        } else {
            with_up
        }
    }
}

/// A banded cell never undercuts the true distance.
pub proof fn lemma_banded_at_least_lev<A>(a: Seq<A>, b: Seq<A>, band: nat, i: nat, j: nat)
    ensures
        banded(a, b, band, i, j) >= lev(a, b, i, j),
    decreases i, j,
{
    if i > 0 && j > 0 {
        lemma_banded_at_least_lev(a, b, band, (i - 1) as nat, (j - 1) as nat);
        lemma_banded_at_least_lev(a, b, band, (i - 1) as nat, j);
        lemma_banded_at_least_lev(a, b, band, i, (j - 1) as nat);
    }
}

/// A banded cell is at most the sum of its coordinates.
pub proof fn lemma_banded_upper_bound<A>(a: Seq<A>, b: Seq<A>, band: nat, i: nat, j: nat)
    ensures
        banded(a, b, band, i, j) <= i + j,
    decreases i, j,
{
    if i > 0 && j > 0 {
        lemma_banded_upper_bound(a, b, band, (i - 1) as nat, (j - 1) as nat);
    }
}

/// Every cell whose distance fits in the band lies in the band, and there
/// the banded table holds the true distance.
pub proof fn lemma_banded_exact<A>(a: Seq<A>, b: Seq<A>, band: nat, i: nat, j: nat)
    requires
        j <= b.len(),
        lev(a, b, i, j) <= band,
    ensures
        in_band(i as int, j as int, band as int, b.len() as int),
        banded(a, b, band, i, j) == lev(a, b, i, j),
    decreases i, j,
{
    lemma_lev_lower_bound(a, b, i, j);
    lemma_banded_at_least_lev(a, b, band, i, j);
    if i > 0 && j > 0 {
        let up = lev(a, b, (i - 1) as nat, j) + 1;
        let left = lev(a, b, i, (j - 1) as nat) + 1;
        let diag = lev(a, b, (i - 1) as nat, (j - 1) as nat) + subst_cost(a[i - 1], b[j - 1]);
        if diag == lev(a, b, i, j) {
            lemma_banded_exact(a, b, band, (i - 1) as nat, (j - 1) as nat);
        } else if left == lev(a, b, i, j) {
            lemma_banded_exact(a, b, band, i, (j - 1) as nat);
        } else {
            lemma_banded_exact(a, b, band, (i - 1) as nat, j);
        }
    }
}

} // verus!

verus! {

/// The rows `rows` hold the first `count` rows of the banded table: row `r`
/// covers hypothesis positions `band_lo(r)..=band_hi(r)`.
pub open spec fn rows_hold<A>(rows: Seq<Vec<usize>>, a: Seq<A>, b: Seq<A>, band: nat, count: int) -> bool {
    &&& rows.len() == count
    &&& forall|r: int|
        0 <= r < count ==> #[trigger] rows[r]@.len() == band_hi(r, band as int, b.len() as int)
            - band_lo(r, band as int) + 1
    &&& forall|r: int, k: int|
        0 <= r < count && 0 <= k < rows[r]@.len() ==> #[trigger] rows[r]@[k] == banded(
            a,
            b,
            band,
            r as nat,
            (band_lo(r, band as int) + k) as nat,
        )
}

/// Lowest hypothesis position of row `row` in the band.
fn lo_of(row: usize, band: usize) -> (r: usize)
    ensures
        r == band_lo(row as int, band as int),
{
    if row >= band {
        row - band
    } else {
        0
    }
}

/// Highest hypothesis position of row `row` in the band.
fn hi_of(row: usize, band: usize, hyp_len: usize) -> (r: usize)
    ensures
        r == band_hi(row as int, band as int, hyp_len as int),
{
    if hyp_len >= band && row <= hyp_len - band {
        row + band
    } else {
        hyp_len
    }
}

/// Build the banded DP table for Wagner-Fischer.
fn build_banded_dp<S: Token>(reference: &[S], hypothesis: &[S], ref_len: usize, band: usize) -> (rows: Vec<Vec<usize>>)
    requires
        ref_len == reference@.len(),
        reference@.len() + hypothesis@.len() <= usize::MAX,
        reference@.len() >= 1,
        hypothesis@.len() >= 1,
        band >= 1,
        band >= reference@.len() - hypothesis@.len(),
    ensures
        rows_hold(rows@, token_views(reference@), token_views(hypothesis@), band as nat, ref_len + 1),
{
    let ghost a = token_views(reference@);
    let ghost b = token_views(hypothesis@);
    let hyp_len = hypothesis.len();
    let mut rows: Vec<Vec<usize>> = Vec::with_capacity(ref_len + 1);
    // Row 0
    {
        let lo_val = lo_of(0, band);
        let hi_val = hi_of(0, band, hyp_len);
        let mut row: Vec<usize> = Vec::with_capacity(hi_val - lo_val + 1);
        let mut idx: usize = 0;
        while idx <= hi_val - lo_val
            invariant
                lo_val == 0,
                hi_val <= hyp_len,
                hyp_len <= usize::MAX - 1,
                idx <= hi_val + 1,
                row@.len() == idx,
                forall|t: int| 0 <= t < idx ==> row@[t] == t,
            decreases hi_val + 1 - idx,
        {
            row.push(lo_val + idx);
            idx += 1;
        }
        rows.push(row);
    }
    assert(rows_hold(rows@, a, b, band as nat, 1)) by {
        assert forall|r: int, k: int|
            0 <= r < 1 && 0 <= k < rows@[r]@.len() implies #[trigger] rows@[r]@[k] == banded(
            a,
            b,
            band as nat,
            r as nat,
            (band_lo(r, band as int) + k) as nat,
        ) by {}
    }
    let mut ref_idx: usize = 1;
    while ref_idx <= ref_len
        invariant
            1 <= ref_idx <= ref_len + 1,
            ref_len == reference@.len(),
            hyp_len == hypothesis@.len(),
            ref_len + hyp_len <= usize::MAX,
            hyp_len >= 1,
            band >= 1,
            band >= ref_len - hyp_len,
            a == token_views(reference@),
            b == token_views(hypothesis@),
            rows_hold(rows@, a, b, band as nat, ref_idx as int),
        decreases ref_len + 1 - ref_idx,
    {
        let lo_val = lo_of(ref_idx, band);
        let hi_val = hi_of(ref_idx, band, hyp_len);
        let width = hi_val - lo_val + 1;
        let mut row: Vec<usize> = vec![0; width];
        let prev_lo = lo_of(ref_idx - 1, band);
        let prev_hi = hi_of(ref_idx - 1, band, hyp_len);
        assert(rows@[ref_idx - 1]@.len() == prev_hi - prev_lo + 1);
        let mut hyp_idx = lo_val;
        while hyp_idx <= hi_val
            invariant
                1 <= ref_idx <= ref_len,
                ref_len == reference@.len(),
                hyp_len == hypothesis@.len(),
                ref_len + hyp_len <= usize::MAX,
                band >= 1,
                a == token_views(reference@),
                b == token_views(hypothesis@),
                rows_hold(rows@, a, b, band as nat, ref_idx as int),
                lo_val == band_lo(ref_idx as int, band as int),
                hi_val == band_hi(ref_idx as int, band as int, hyp_len as int),
                prev_lo == band_lo(ref_idx - 1, band as int),
                prev_hi == band_hi(ref_idx - 1, band as int, hyp_len as int),
                rows@[ref_idx - 1]@.len() == prev_hi - prev_lo + 1,
                width == hi_val - lo_val + 1,
                row@.len() == width,
                lo_val <= hyp_idx <= hi_val + 1,
                forall|t: int|
                    0 <= t < hyp_idx - lo_val ==> #[trigger] row@[t] == banded(
                        a,
                        b,
                        band as nat,
                        ref_idx as nat,
                        (lo_val + t) as nat,
                    ),
            decreases hi_val + 1 - hyp_idx,
        {
            let local_j = hyp_idx - lo_val;
            if hyp_idx == 0 {
                row.set(local_j, ref_idx);
            } else {
                let ghost i = ref_idx as nat;
                let ghost j = hyp_idx as nat;
                proof {
                    lemma_banded_upper_bound(a, b, band as nat, (i - 1) as nat, (j - 1) as nat);
                    lemma_banded_upper_bound(a, b, band as nat, (i - 1) as nat, j);
                    lemma_banded_upper_bound(a, b, band as nat, i, (j - 1) as nat);
                }
                let diag = rows[ref_idx - 1][hyp_idx - 1 - prev_lo];
                let same = reference[ref_idx - 1].same_text(&hypothesis[hyp_idx - 1]);
                let cost: usize = if same { 0 } else { 1 };
                let diag_val = diag + cost;
                let mut best = diag_val;
                if hyp_idx >= prev_lo && hyp_idx <= prev_hi {
                    let up = rows[ref_idx - 1][hyp_idx - prev_lo] + 1;
                    if up < best {
                        best = up;
                    }
                }
                if hyp_idx > lo_val {
                    let left = row[local_j - 1] + 1;
                    if left < best {
                        best = left;
                    }
                }
                row.set(local_j, best);
            }
            hyp_idx += 1;
        }
        rows.push(row);
        proof {
            assert forall|r: int, k: int|
                0 <= r < ref_idx + 1 && 0 <= k < rows@[r]@.len() implies #[trigger] rows@[r]@[k]
                == banded(a, b, band as nat, r as nat, (band_lo(r, band as int) + k) as nat) by {
                if r < ref_idx {
                } else {
                    assert(rows@[r]@ == row@);
                }
            }
        }
        ref_idx += 1;
    }
    rows
}

} // verus!

verus! {

/// The alignment traced back from cell `(i, j)` of the Levenshtein table:
/// a match whenever the last tokens are equal, otherwise a substitution when
/// it is optimal, otherwise an insertion when it is optimal, otherwise a
/// deletion. It aligns the first `i` items of `a` with the first `j` of `b`.
pub open spec fn trace<A>(a: Seq<A>, b: Seq<A>, i: nat, j: nat) -> Seq<EditOp>
    decreases i + j,
{
    if i == 0 && j == 0 {
        seq![]
    } else if i > 0 && j > 0 && a[i - 1] == b[j - 1] {
        trace(a, b, (i - 1) as nat, (j - 1) as nat).push(
            EditOp::Equal { index: (i - 1) as usize },
        )
    } else if i > 0 && j > 0 && lev(a, b, (i - 1) as nat, (j - 1) as nat) + 1 == lev(a, b, i, j) {
        trace(a, b, (i - 1) as nat, (j - 1) as nat).push(
            EditOp::Substitute { ref_index: (i - 1) as usize, hyp_index: (j - 1) as usize },
        )
    } else if j > 0 && lev(a, b, i, (j - 1) as nat) + 1 == lev(a, b, i, j) {
        trace(a, b, i, (j - 1) as nat).push(EditOp::Insert { hyp_index: (j - 1) as usize })
    } else if i > 0 {
        trace(a, b, (i - 1) as nat, j).push(EditOp::Delete { ref_index: (i - 1) as usize })
    } else {
        seq![]
    }
}

/// The alignment of the whole of `a` against the whole of `b` that `align` returns.
pub open spec fn alignment_of<A>(a: Seq<A>, b: Seq<A>) -> Seq<EditOp> {
    trace(a, b, a.len(), b.len())
}

/// The cost that `op` adds to an alignment: 0 for a match, 1 otherwise.
pub open spec fn op_cost(op: EditOp) -> nat {
    if op is Equal { 0 } else { 1 }
}

/// One step of the traceback from cell `(ref_pos, hyp_pos)`: the operation
/// ending the traced alignment there, and the cell it comes from.
fn backtrack_step<S: Token>(
    reference: &[S],
    hypothesis: &[S],
    hyp_len: usize,
    rows: &Vec<Vec<usize>>,
    band: usize,
    ref_pos: usize,
    hyp_pos: usize,
) -> (res: (EditOp, usize, usize))
    requires
        hyp_len == hypothesis@.len(),
        reference@.len() + hyp_len <= usize::MAX,
        rows_hold(
            rows@,
            token_views(reference@),
            token_views(hypothesis@),
            band as nat,
            reference@.len() + 1 as int,
        ),
        ref_pos <= reference@.len(),
        hyp_pos <= hyp_len,
        ref_pos > 0 || hyp_pos > 0,
        lev(token_views(reference@), token_views(hypothesis@), ref_pos as nat, hyp_pos as nat)
            <= band,
    ensures
        ({
            let a = token_views(reference@);
            let b = token_views(hypothesis@);
            let (op, ni, nj) = res;
            &&& ni + ref_advance(op) == ref_pos
            &&& nj + hyp_advance(op) == hyp_pos
            &&& step_ok(a, b, ni as int, nj as int, op)
            &&& lev(a, b, ref_pos as nat, hyp_pos as nat) == lev(a, b, ni as nat, nj as nat)
                + op_cost(op)
            &&& trace(a, b, ref_pos as nat, hyp_pos as nat) == trace(a, b, ni as nat, nj as nat).push(
                op,
            )
        }),
{
    let ghost a = token_views(reference@);
    let ghost b = token_views(hypothesis@);
    let ghost bnd = band as nat;
    let ghost i = ref_pos as nat;
    let ghost j = hyp_pos as nat;
    proof {
        lemma_banded_exact(a, b, bnd, i, j);
    }
    let lo_val = lo_of(ref_pos, band);
    // The optimal alignment path stays within the band, so hyp_pos lies in
    // [lo_val, hi(ref_pos)].
    let cv = rows[ref_pos][hyp_pos - lo_val];
    if ref_pos > 0 && hyp_pos > 0 && reference[ref_pos - 1].same_text(&hypothesis[hyp_pos - 1]) {
        proof {
            lemma_lev_match(a, b, i, j);
        }
        return (EditOp::Equal { index: ref_pos - 1 }, ref_pos - 1, hyp_pos - 1);
    }
    let prev_lo = if ref_pos > 0 { lo_of(ref_pos - 1, band) } else { lo_of(0, band) };
    let prev_hi = if ref_pos > 0 { hi_of(ref_pos - 1, band, hyp_len) } else { 0 };
    proof {
        if i > 0 && j > 0 {
            lemma_banded_upper_bound(a, b, bnd, (i - 1) as nat, (j - 1) as nat);
            lemma_banded_at_least_lev(a, b, bnd, (i - 1) as nat, (j - 1) as nat);
            lemma_lev_step_diag(a, b, (i - 1) as nat, (j - 1) as nat);
        }
        if j > 0 {
            lemma_banded_upper_bound(a, b, bnd, i, (j - 1) as nat);
            lemma_banded_at_least_lev(a, b, bnd, i, (j - 1) as nat);
            lemma_lev_step_j(a, b, i, (j - 1) as nat);
        }
    }
    let diag_ok = ref_pos > 0 && hyp_pos > 0 && hyp_pos > prev_lo && hyp_pos - 1 <= prev_hi && cv
        == rows[ref_pos - 1][hyp_pos - 1 - prev_lo] + 1;
    let left_ok = hyp_pos > lo_val && cv == rows[ref_pos][hyp_pos - 1 - lo_val] + 1;
    proof {
        if i > 0 && j > 0 && lev(a, b, (i - 1) as nat, (j - 1) as nat) + 1 == lev(a, b, i, j) {
            lemma_banded_exact(a, b, bnd, (i - 1) as nat, (j - 1) as nat);
        }
        if j > 0 && lev(a, b, i, (j - 1) as nat) + 1 == lev(a, b, i, j) {
            lemma_banded_exact(a, b, bnd, i, (j - 1) as nat);
        }
        assert(diag_ok == (i > 0 && j > 0 && lev(a, b, (i - 1) as nat, (j - 1) as nat) + 1 == lev(
            a,
            b,
            i,
            j,
        )));
        assert(left_ok == (j > 0 && lev(a, b, i, (j - 1) as nat) + 1 == lev(a, b, i, j)));
    }
    if diag_ok {
        (EditOp::Substitute { ref_index: ref_pos - 1, hyp_index: hyp_pos - 1 }, ref_pos - 1, hyp_pos
            - 1)
    } else if left_ok {
        (EditOp::Insert { hyp_index: hyp_pos - 1 }, ref_pos, hyp_pos - 1)
    } else {
        proof {
            if i == 0 {
                lemma_banded_exact(a, b, bnd, 0, (j - 1) as nat);
                assert(false);
            }
            if j > 0 {
                let left = lev(a, b, i, (j - 1) as nat) + 1;
                let diag = lev(a, b, (i - 1) as nat, (j - 1) as nat) + 1;
                assert(diag != lev(a, b, i, j));
                assert(left != lev(a, b, i, j));
            }
        }
        (EditOp::Delete { ref_index: ref_pos - 1 }, ref_pos - 1, hyp_pos)
    }
}

/// Backtrack through the banded DP table to reconstruct the alignment.
fn backtrack_banded<S: Token>(
    reference: &[S],
    hypothesis: &[S],
    ref_len: usize,
    hyp_len: usize,
    rows: &Vec<Vec<usize>>,
    band: usize,
) -> (ops: Vec<EditOp>)
    requires
        ref_len == reference@.len(),
        hyp_len == hypothesis@.len(),
        ref_len + hyp_len <= usize::MAX,
        band == edit_distance_of(token_views(reference@), token_views(hypothesis@)),
        rows_hold(rows@, token_views(reference@), token_views(hypothesis@), band as nat, ref_len + 1),
    ensures
        is_alignment(token_views(reference@), token_views(hypothesis@), ops@),
        count_errors(ops@) == band,
        ops@ == alignment_of(token_views(reference@), token_views(hypothesis@)),
{
    let ghost a = token_views(reference@);
    let ghost b = token_views(hypothesis@);
    let ghost bnd = band as nat;
    let mut ops: Vec<EditOp> = Vec::with_capacity(ref_len + hyp_len);
    let ghost mut suffix: Seq<EditOp> = Seq::empty();
    let mut ref_pos = ref_len;
    let mut hyp_pos = hyp_len;
    assert(trace(a, b, ref_pos as nat, hyp_pos as nat) + suffix =~= trace(
        a,
        b,
        ref_len as nat,
        hyp_len as nat,
    ));
    while ref_pos > 0 || hyp_pos > 0
        invariant
            ref_len == reference@.len(),
            hyp_len == hypothesis@.len(),
            ref_len + hyp_len <= usize::MAX,
            a == token_views(reference@),
            b == token_views(hypothesis@),
            bnd == band,
            band == lev(a, b, ref_len as nat, hyp_len as nat),
            rows_hold(rows@, a, b, bnd, ref_len + 1),
            ref_pos <= ref_len,
            hyp_pos <= hyp_len,
            lev(a, b, ref_pos as nat, hyp_pos as nat) <= bnd,
            aligns_from(a, b, suffix, ref_pos as int, hyp_pos as int),
            count_errors(suffix) + lev(a, b, ref_pos as nat, hyp_pos as nat) == bnd,
            trace(a, b, ref_pos as nat, hyp_pos as nat) + suffix == trace(
                a,
                b,
                ref_len as nat,
                hyp_len as nat,
            ),
            ops@.len() == suffix.len(),
            forall|t: int| 0 <= t < ops@.len() ==> ops@[t] == suffix[suffix.len() - 1 - t],
        decreases ref_pos + hyp_pos,
    {
        let ghost old_suffix = suffix;
        let ghost old_ops = ops@;
        let ghost i = ref_pos as nat;
        let ghost j = hyp_pos as nat;
        let (op, ni, nj) = backtrack_step(reference, hypothesis, hyp_len, rows, band, ref_pos, hyp_pos);
        ref_pos = ni;
        hyp_pos = nj;
        ops.push(op);
        proof {
            assert(trace(a, b, ref_pos as nat, hyp_pos as nat).push(op) + old_suffix =~= trace(
                a,
                b,
                ref_pos as nat,
                hyp_pos as nat,
            ) + (seq![op] + old_suffix));
            suffix = seq![op] + old_suffix;
            assert(suffix.drop_first() =~= old_suffix);
            lemma_counts_concat(seq![op], old_suffix);
            lemma_counts_single(op);
            assert forall|t: int| 0 <= t < ops@.len() implies ops@[t] == suffix[suffix.len() - 1
                - t] by {
                if t < old_ops.len() {
                    assert(ops@[t] == old_ops[t]);
                }
            }
        }
    }
    // Reverse into forward order.
    let mut result: Vec<EditOp> = Vec::with_capacity(ops.len());
    let mut k = ops.len();
    while k > 0
        invariant
            k <= ops@.len(),
            ops@.len() == suffix.len(),
            forall|t: int| 0 <= t < ops@.len() ==> ops@[t] == suffix[suffix.len() - 1 - t],
            result@.len() == ops@.len() - k,
            forall|t: int| 0 <= t < result@.len() ==> result@[t] == suffix[t],
        decreases k,
    {
        k -= 1;
        result.push(ops[k].duplicate());
    }
    assert(result@ =~= suffix);
    assert(trace(a, b, 0, 0) + suffix =~= suffix);
    result
}

} // verus!

verus! {

/// Counts of each edit operation type from an alignment.
#[derive(Debug, Clone, PartialEq, Eq, Structural)]
pub struct OperationCounts {
    /// Number of matching tokens.
    pub hits: usize,
    /// Number of substitutions.
    pub substitutions: usize,
    /// Number of deletions.
    pub deletions: usize,
    /// Number of insertions.
    pub insertions: usize,
}

impl Default for OperationCounts {
    fn default() -> (r: Self)
        ensures
            r.hits == 0,
            r.substitutions == 0,
            r.deletions == 0,
            r.insertions == 0,
    {
        OperationCounts { hits: 0, substitutions: 0, deletions: 0, insertions: 0 }
    }
}

/// Whether `counts` holds the number of operations of each kind in `ops`.
pub open spec fn counts_of(counts: OperationCounts, ops: Seq<EditOp>) -> bool {
    &&& counts.hits == count_hits(ops)
    &&& counts.substitutions == count_subs(ops)
    &&& counts.deletions == count_dels(ops)
    &&& counts.insertions == count_ins(ops)
}

/// Count the occurrences of each operation type.
pub fn count_operations(ops: &[EditOp]) -> (counts: OperationCounts)
    ensures
        counts_of(counts, ops@),
{
    let mut counts = OperationCounts { hits: 0, substitutions: 0, deletions: 0, insertions: 0 };
    let mut k: usize = 0;
    while k < ops.len()
        invariant
            k <= ops@.len(),
            counts_of(counts, ops@.take(k as int)),
            counts.hits + counts.substitutions + counts.deletions + counts.insertions == k,
        decreases ops@.len() - k,
    {
        proof {
            assert(ops@.take(k + 1).drop_last() =~= ops@.take(k as int));
            assert(ops@.take(k + 1).last() == ops@[k as int]);
        }
        match &ops[k] {
            EditOp::Equal { .. } => counts.hits += 1,
            EditOp::Substitute { .. } => counts.substitutions += 1,
            EditOp::Insert { .. } => counts.insertions += 1,
            EditOp::Delete { .. } => counts.deletions += 1,
        }
        k += 1;
    }
    assert(ops@.take(ops@.len() as int) =~= ops@);
    counts
}

/// A run of insertions of hypothesis positions `k..` aligns an empty reference.
proof fn lemma_all_inserts<A>(a: Seq<A>, b: Seq<A>, ops: Seq<EditOp>, k: int)
    requires
        a.len() == 0,
        ops.len() == b.len(),
        0 <= k <= ops.len(),
        ops.len() <= usize::MAX,
        forall|t: int| 0 <= t < ops.len() ==> ops[t] == (EditOp::Insert { hyp_index: t as usize }),
    ensures
        aligns_from(a, b, ops.skip(k), 0, k),
    decreases ops.len() - k,
{
    if k < ops.len() {
        lemma_all_inserts(a, b, ops, k + 1);
        assert(ops.skip(k).drop_first() =~= ops.skip(k + 1));
        assert(ops.skip(k)[0] == ops[k]);
    }
}

/// A run of deletions of reference positions `k..` aligns against an empty hypothesis.
proof fn lemma_all_deletes<A>(a: Seq<A>, b: Seq<A>, ops: Seq<EditOp>, k: int)
    requires
        b.len() == 0,
        ops.len() == a.len(),
        0 <= k <= ops.len(),
        ops.len() <= usize::MAX,
        forall|t: int| 0 <= t < ops.len() ==> ops[t] == (EditOp::Delete { ref_index: t as usize }),
    ensures
        aligns_from(a, b, ops.skip(k), k, 0),
    decreases ops.len() - k,
{
    if k < ops.len() {
        lemma_all_deletes(a, b, ops, k + 1);
        assert(ops.skip(k).drop_first() =~= ops.skip(k + 1));
        assert(ops.skip(k)[0] == ops[k]);
    }
}

/// A run of matches of positions `k..` aligns two equal sequences.
proof fn lemma_all_equal<A>(a: Seq<A>, b: Seq<A>, ops: Seq<EditOp>, k: int)
    requires
        a == b,
        ops.len() == a.len(),
        0 <= k <= ops.len(),
        ops.len() <= usize::MAX,
        forall|t: int| 0 <= t < ops.len() ==> ops[t] == (EditOp::Equal { index: t as usize }),
    ensures
        aligns_from(a, b, ops.skip(k), k, k),
    decreases ops.len() - k,
{
    if k < ops.len() {
        lemma_all_equal(a, b, ops, k + 1);
        assert(ops.skip(k).drop_first() =~= ops.skip(k + 1));
        assert(ops.skip(k)[0] == ops[k]);
    }
}

/// With an empty reference, the traced alignment inserts every hypothesis token in order.
proof fn lemma_trace_inserts<A>(a: Seq<A>, b: Seq<A>, j: nat)
    requires
        a.len() == 0,
        j <= usize::MAX,
    ensures
        trace(a, b, 0, j) =~= Seq::new(j, |t: int| EditOp::Insert { hyp_index: t as usize }),
    decreases j,
{
    if j > 0 {
        lemma_trace_inserts(a, b, (j - 1) as nat);
    }
}

/// With an empty hypothesis, the traced alignment deletes every reference token in order.
proof fn lemma_trace_deletes<A>(a: Seq<A>, b: Seq<A>, i: nat)
    requires
        b.len() == 0,
        i <= usize::MAX,
    ensures
        trace(a, b, i, 0) =~= Seq::new(i, |t: int| EditOp::Delete { ref_index: t as usize }),
    decreases i,
{
    if i > 0 {
        lemma_trace_deletes(a, b, (i - 1) as nat);
    }
}

/// For equal sequences, the traced alignment matches every token in order.
proof fn lemma_trace_equal<A>(a: Seq<A>, b: Seq<A>, i: nat)
    requires
        a == b,
        i <= a.len(),
        i <= usize::MAX,
    ensures
        trace(a, b, i, i) =~= Seq::new(i, |t: int| EditOp::Equal { index: t as usize }),
    decreases i,
{
    if i > 0 {
        lemma_trace_equal(a, b, (i - 1) as nat);
    }
}

/// A distance of zero means the prefixes are equal.
proof fn lemma_lev_zero<A>(a: Seq<A>, b: Seq<A>, i: nat, j: nat)
    requires
        lev(a, b, i, j) == 0,
        i <= a.len(),
        j <= b.len(),
    ensures
        i == j,
        a.take(i as int) == b.take(j as int),
    decreases i + j,
{
    if i > 0 && j > 0 {
        lemma_lev_zero(a, b, (i - 1) as nat, (j - 1) as nat);
        assert(a.take(i as int) =~= a.take(i - 1).push(a[i - 1]));
        assert(b.take(j as int) =~= b.take(j - 1).push(b[j - 1]));
    }
}

/// Compute the Levenshtein alignment between two token sequences.
///
/// Uses a two-phase approach for performance:
/// 1. Compute total edit distance using single-row DP
/// 2. Run banded Wagner-Fischer (diagonal ± distance band) for traceback
///
/// The result is an alignment of the whole reference against the whole
/// hypothesis whose number of errors is the Levenshtein distance.
pub fn align<S: Token>(reference: &[S], hypothesis: &[S]) -> (ops: Vec<EditOp>)
    requires
        reference@.len() + hypothesis@.len() <= usize::MAX,
    ensures
        is_alignment(token_views(reference@), token_views(hypothesis@), ops@),
        count_errors(ops@) == edit_distance_of(token_views(reference@), token_views(hypothesis@)),
        ops@ == alignment_of(token_views(reference@), token_views(hypothesis@)),
{
    let ghost a = token_views(reference@);
    let ghost b = token_views(hypothesis@);
    let m = reference.len();
    let n = hypothesis.len();

    if m == 0 {
        let mut ops: Vec<EditOp> = Vec::with_capacity(n);
        let mut k: usize = 0;
        while k < n
            invariant
                k <= n,
                ops@.len() == k,
                forall|t: int| 0 <= t < k ==> ops@[t] == (EditOp::Insert { hyp_index: t as usize }),
                count_errors(ops@) == k,
            decreases n - k,
        {
            proof {
                assert(ops@.push(EditOp::Insert { hyp_index: k }).drop_last() =~= ops@);
            }
            ops.push(EditOp::Insert { hyp_index: k });
            k += 1;
        }
        proof {
            lemma_all_inserts(a, b, ops@, 0);
            assert(ops@.skip(0) =~= ops@);
            lemma_trace_inserts(a, b, n as nat);
        }
        return ops;
    }
    if n == 0 {
        let mut ops: Vec<EditOp> = Vec::with_capacity(m);
        let mut k: usize = 0;
        while k < m
            invariant
                k <= m,
                ops@.len() == k,
                forall|t: int| 0 <= t < k ==> ops@[t] == (EditOp::Delete { ref_index: t as usize }),
                count_errors(ops@) == k,
            decreases m - k,
        {
            proof {
                assert(ops@.push(EditOp::Delete { ref_index: k }).drop_last() =~= ops@);
            }
            ops.push(EditOp::Delete { ref_index: k });
            k += 1;
        }
        proof {
            lemma_all_deletes(a, b, ops@, 0);
            assert(ops@.skip(0) =~= ops@);
            lemma_trace_deletes(a, b, m as nat);
        }
        return ops;
    }

    let dist = edit_distance(reference, hypothesis);

    if dist == 0 {
        proof {
            lemma_lev_zero(a, b, m as nat, n as nat);
            assert(a.take(m as int) =~= a);
            assert(b.take(n as int) =~= b);
        }
        let mut ops: Vec<EditOp> = Vec::with_capacity(m);
        let mut k: usize = 0;
        while k < m
            invariant
                k <= m,
                ops@.len() == k,
                forall|t: int| 0 <= t < k ==> ops@[t] == (EditOp::Equal { index: t as usize }),
                count_errors(ops@) == 0,
            decreases m - k,
        {
            proof {
                assert(ops@.push(EditOp::Equal { index: k }).drop_last() =~= ops@);
            }
            ops.push(EditOp::Equal { index: k });
            k += 1;
        }
        proof {
            lemma_all_equal(a, b, ops@, 0);
            assert(ops@.skip(0) =~= ops@);
            lemma_trace_equal(a, b, m as nat);
        }
        return ops;
    }

    align_banded(reference, hypothesis, dist)
}

/// Banded Wagner-Fischer alignment.
///
/// Only computes DP cells within a band of width `(2 * dist + 1)` centered
/// on the main diagonal. This reduces time and space from O(M×N) to O(M×D)
/// where D is the edit distance.
fn align_banded<S: Token>(reference: &[S], hypothesis: &[S], dist: usize) -> (ops: Vec<EditOp>)
    requires
        reference@.len() + hypothesis@.len() <= usize::MAX,
        reference@.len() >= 1,
        hypothesis@.len() >= 1,
        dist >= 1,
        dist == edit_distance_of(token_views(reference@), token_views(hypothesis@)),
    ensures
        is_alignment(token_views(reference@), token_views(hypothesis@), ops@),
        count_errors(ops@) == dist,
        ops@ == alignment_of(token_views(reference@), token_views(hypothesis@)),
{
    let ref_len = reference.len();
    let hyp_len = hypothesis.len();
    proof {
        lemma_lev_lower_bound(
            token_views(reference@),
            token_views(hypothesis@),
            ref_len as nat,
            hyp_len as nat,
        );
    }
    let band = dist;
    let rows = build_banded_dp(reference, hypothesis, ref_len, band);
    backtrack_banded(reference, hypothesis, ref_len, hyp_len, &rows, band)
}

} // verus!

verus! {

/// The distance depends only on which items of `a` match which items of `b`.
pub proof fn lemma_lev_same_matches<A, B>(a: Seq<A>, b: Seq<A>, c: Seq<B>, d: Seq<B>, i: nat, j: nat)
    requires
        i <= a.len(),
        j <= b.len(),
        a.len() == c.len(),
        b.len() == d.len(),
        forall|k: int, l: int|
            0 <= k < a.len() && 0 <= l < b.len() ==> (#[trigger] a[k] == #[trigger] b[l]) == (c[k]
                == d[l]),
    ensures
        lev(a, b, i, j) == lev(c, d, i, j),
    decreases i + j,
{
    if i > 0 && j > 0 {
        lemma_lev_same_matches(a, b, c, d, (i - 1) as nat, j);
        lemma_lev_same_matches(a, b, c, d, i, (j - 1) as nat);
        lemma_lev_same_matches(a, b, c, d, (i - 1) as nat, (j - 1) as nat);
        assert((a[i - 1] == b[j - 1]) == (c[i - 1] == d[j - 1]));
    }
}

/// Look `token` up in `vocab`, adding it when absent; returns its position.
fn vocab_id<'a, S: Token>(vocab: &mut Vec<&'a S>, token: &'a S) -> (id: usize)
    requires
        forall|x: int, y: int|
            0 <= x < old(vocab)@.len() && 0 <= y < old(vocab)@.len() && x != y ==> old(vocab)@[x]@
                != old(vocab)@[y]@,
    ensures
        forall|x: int, y: int|
            0 <= x < final(vocab)@.len() && 0 <= y < final(vocab)@.len() && x != y
                ==> final(vocab)@[x]@ != final(vocab)@[y]@,
        id < final(vocab)@.len(),
        final(vocab)@[id as int]@ == token@,
        old(vocab)@.len() <= final(vocab)@.len() <= old(vocab)@.len() + 1,
        forall|x: int| 0 <= x < old(vocab)@.len() ==> final(vocab)@[x] == old(vocab)@[x],
{
    let mut k: usize = 0;
    while k < vocab.len()
        invariant
            k <= vocab@.len(),
            vocab@ == old(vocab)@,
            forall|x: int, y: int|
                0 <= x < vocab@.len() && 0 <= y < vocab@.len() && x != y ==> vocab@[x]@
                    != vocab@[y]@,
            forall|x: int| 0 <= x < k ==> vocab@[x]@ != token@,
        decreases vocab@.len() - k,
    {
        if vocab[k].same_text(token) {
            return k;
        }
        k += 1;
    }
    vocab.push(token);
    vocab.len() - 1
}

/// Whether `id` is the position in `vocab` of a word with characters `word`.
spec fn names<'a, S: Token>(vocab: Seq<&'a S>, id: u64, word: Seq<char>) -> bool {
    id < vocab.len() && vocab[id as int]@ == word
}

/// Compute Levenshtein distance between two word sequences using rapidfuzz.
///
/// Maps each distinct word to a numeric id, then uses Myers bit-parallel
/// algorithm for O([K/64]×M) complexity where K is the edit distance
/// and M is the shorter sequence length.
pub fn rapidfuzz_word_distance<S: Token>(reference: &[S], hypothesis: &[S]) -> (d: usize)
    requires
        reference@.len() + hypothesis@.len() <= usize::MAX,
    ensures
        d == edit_distance_of(token_views(reference@), token_views(hypothesis@)),
{
    let ghost a = token_views(reference@);
    let ghost b = token_views(hypothesis@);
    let m = reference.len();
    let n = hypothesis.len();

    if m == 0 {
        return n;
    }
    if n == 0 {
        return m;
    }

    let mut vocab: Vec<&S> = Vec::new();
    let mut ref_ids: Vec<u64> = Vec::with_capacity(m);
    let mut k: usize = 0;
    while k < m
        invariant
            k <= m,
            m == reference@.len(),
            m + n <= usize::MAX,
            vocab@.len() <= k,
            forall|x: int, y: int|
                0 <= x < vocab@.len() && 0 <= y < vocab@.len() && x != y ==> vocab@[x]@
                    != vocab@[y]@,
            ref_ids@.len() == k,
            forall|t: int| 0 <= t < k ==> names(vocab@, #[trigger] ref_ids@[t], reference@[t]@),
        decreases m - k,
    {
        let ghost old_vocab = vocab@;
        let ghost old_ids = ref_ids@;
        let id = vocab_id(&mut vocab, &reference[k]);
        ref_ids.push(id as u64);
        proof {
            assert forall|t: int| 0 <= t < k + 1 implies names(
                vocab@,
                #[trigger] ref_ids@[t],
                reference@[t]@,
            ) by {
                if t < k {
                    assert(ref_ids@[t] == old_ids[t]);
                    assert(names(old_vocab, old_ids[t], reference@[t]@));
                    assert(vocab@[old_ids[t] as int] == old_vocab[old_ids[t] as int]);
                }
            }
        }
        k += 1;
    }
    let mut hyp_ids: Vec<u64> = Vec::with_capacity(n);
    let mut k: usize = 0;
    while k < n
        invariant
            k <= n,
            m == reference@.len(),
            n == hypothesis@.len(),
            m + n <= usize::MAX,
            vocab@.len() <= m + k,
            forall|x: int, y: int|
                0 <= x < vocab@.len() && 0 <= y < vocab@.len() && x != y ==> vocab@[x]@
                    != vocab@[y]@,
            ref_ids@.len() == m,
            forall|t: int| 0 <= t < m ==> names(vocab@, #[trigger] ref_ids@[t], reference@[t]@),
            hyp_ids@.len() == k,
            forall|t: int| 0 <= t < k ==> names(vocab@, #[trigger] hyp_ids@[t], hypothesis@[t]@),
        decreases n - k,
    {
        let ghost old_vocab = vocab@;
        let ghost old_ids = hyp_ids@;
        let id = vocab_id(&mut vocab, &hypothesis[k]);
        hyp_ids.push(id as u64);
        proof {
            assert forall|t: int| 0 <= t < m implies names(
                vocab@,
                #[trigger] ref_ids@[t],
                reference@[t]@,
            ) by {
                assert(names(old_vocab, ref_ids@[t], reference@[t]@));
                assert(vocab@[ref_ids@[t] as int] == old_vocab[ref_ids@[t] as int]);
            }
            assert forall|t: int| 0 <= t < k + 1 implies names(
                vocab@,
                #[trigger] hyp_ids@[t],
                hypothesis@[t]@,
            ) by {
                if t < k {
                    assert(hyp_ids@[t] == old_ids[t]);
                    assert(names(old_vocab, old_ids[t], hypothesis@[t]@));
                    assert(vocab@[old_ids[t] as int] == old_vocab[old_ids[t] as int]);
                }
            }
        }
        k += 1;
    }
    proof {
        assert forall|x: int, y: int|
            0 <= x < a.len() && 0 <= y < b.len() implies (#[trigger] a[x] == #[trigger] b[y]) == (
            ref_ids@[x] == hyp_ids@[y]) by {
            assert(names(vocab@, ref_ids@[x], reference@[x]@));
            assert(names(vocab@, hyp_ids@[y], hypothesis@[y]@));
        }
        lemma_lev_same_matches(a, b, ref_ids@, hyp_ids@, m as nat, n as nat);
    }
    crate::alignment_fast::levenshtein_ids(&ref_ids, &hyp_ids)
}

} // verus!

verus! {

/// The traced alignment up to `(i, j)`, followed by any alignment of the
/// rest from `(i, j)`, aligns the whole sequences; and the traced part costs
/// exactly the distance at `(i, j)`.
proof fn lemma_trace_prefix<A>(a: Seq<A>, b: Seq<A>, i: nat, j: nat, rest: Seq<EditOp>)
    requires
        i <= a.len(),
        j <= b.len(),
        a.len() <= usize::MAX,
        b.len() <= usize::MAX,
        aligns_from(a, b, rest, i as int, j as int),
    ensures
        aligns_from(a, b, trace(a, b, i, j) + rest, 0, 0),
        count_errors(trace(a, b, i, j)) == lev(a, b, i, j),
    decreases i + j,
{
    if i == 0 && j == 0 {
        assert(trace(a, b, i, j) + rest =~= rest);
    } else {
        let t = trace(a, b, i, j);
        let op = t.last();
        let (pi, pj) = if i > 0 && j > 0 && a[i - 1] == b[j - 1] {
            lemma_lev_match(a, b, i, j);
            ((i - 1) as nat, (j - 1) as nat)
        } else if i > 0 && j > 0 && lev(a, b, (i - 1) as nat, (j - 1) as nat) + 1 == lev(a, b, i, j) {
            ((i - 1) as nat, (j - 1) as nat)
        } else if j > 0 && lev(a, b, i, (j - 1) as nat) + 1 == lev(a, b, i, j) {
            (i, (j - 1) as nat)
        } else {
            (((i - 1) as nat), j)
        };
        let prev = trace(a, b, pi, pj);
        assert(t == prev.push(op));
        let rest2 = seq![op] + rest;
        assert(rest2.drop_first() =~= rest);
        lemma_trace_prefix(a, b, pi, pj, rest2);
        assert(prev + rest2 =~= t + rest);
        lemma_counts_concat(prev, seq![op]);
        lemma_counts_single(op);
        assert(prev + seq![op] =~= t);
    }
}

/// The alignment that `align` returns is an alignment of the whole
/// sequences, and its number of errors is their Levenshtein distance, the
/// least any alignment makes.
pub proof fn lemma_alignment_of_optimal<A>(a: Seq<A>, b: Seq<A>)
    requires
        a.len() <= usize::MAX,
        b.len() <= usize::MAX,
    ensures
        is_alignment(a, b, alignment_of(a, b)),
        count_errors(alignment_of(a, b)) == edit_distance_of(a, b),
{
    lemma_trace_prefix(a, b, a.len(), b.len(), seq![]);
    assert(alignment_of(a, b) + Seq::<EditOp>::empty() =~= alignment_of(a, b));
}

} // verus!

verus! {

/// A sequence is at distance zero from itself.
proof fn lemma_lev_self<A>(a: Seq<A>, i: nat)
    requires
        i <= a.len(),
    ensures
        lev(a, a, i, i) == 0,
    decreases i,
{
    if i > 0 {
        lemma_lev_self(a, (i - 1) as nat);
        lemma_lev_match(a, a, i, i);
    }
}

/// Aligning a sequence with itself matches every item and makes no error.
pub proof fn lemma_identical_sequences<A>(a: Seq<A>)
    requires
        a.len() <= usize::MAX,
    ensures
        edit_distance_of(a, a) == 0,
        count_errors(alignment_of(a, a)) == 0,
        count_hits(alignment_of(a, a)) == a.len(),
{
    lemma_lev_self(a, a.len());
    lemma_alignment_of_optimal(a, a);
    lemma_alignment_counts(a, a, alignment_of(a, a));
}

} // verus!
