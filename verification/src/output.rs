use vstd::prelude::*;
use crate::alignment::{
    EditOp, OperationCounts, aligns_from, count_dels, count_hits, count_ins, count_subs,
    counts_of, is_alignment, ref_advance, hyp_advance,
};
use crate::text::{Token, token_views, join, join_with};
use crate::format::{decimal_digits, decimal_fraction, format_decimal, format_percentage, percentage, push_decimal};

verus! {

/// A single chunk in the alignment, representing one edit operation with its text.
#[derive(Debug, Clone, PartialEq, Eq)]
pub enum AlignmentChunk {
    /// Matching text between reference and hypothesis.
    Equal {
        /// The matching text.
        text: String,
    },
    /// Reference text was substituted with hypothesis text.
    Substitute {
        /// The reference text.
        reference: String,
        /// The hypothesis text.
        hypothesis: String,
    },
    /// Text present in hypothesis but not in reference.
    Insert {
        /// The inserted hypothesis text.
        hypothesis: String,
    },
    /// Text present in reference but not in hypothesis.
    Delete {
        /// The deleted reference text.
        reference: String,
    },
}

/// An exact non-negative rate, `numerator / denominator`.
#[derive(Debug, Clone, Copy, PartialEq, Eq, Structural)]
pub struct Ratio {
    /// The numerator.
    pub numerator: u128,
    /// The denominator (never zero).
    pub denominator: u128,
}

/// Whether `r` is written as the fraction `parts.0 / parts.1`.
pub open spec fn ratio_is(r: Ratio, parts: (int, int)) -> bool {
    r.numerator == parts.0 && r.denominator == parts.1
}

/// Error rate `errors / n` (WER, CER), or `0 / 1` when `n` is zero.
pub open spec fn error_rate_parts(errors: int, n: int) -> (int, int) {
    if n == 0 { (0, 1) } else { (errors, n) }
}

/// Match error rate `errors / total`, or `0 / 1` when `total` is zero.
pub open spec fn match_error_parts(errors: int, total: int) -> (int, int) {
    if total == 0 { (0, 1) } else { (errors, total) }
}

/// Word information preserved, `(hits / ref_len) * (hits / total)`: `1 / 1`
/// when both sides are empty, and `0 / 1` when either side is empty or
/// nothing matches.
pub open spec fn wip_parts(hits: int, ref_len: int, hyp_len: int, total: int) -> (int, int) {
    if ref_len == 0 && hyp_len == 0 {
        (1, 1)
    } else if ref_len == 0 || hyp_len == 0 || hits == 0 {
        (0, 1)
    } else {
        (hits * hits, ref_len * total)
    }
}

/// Word information lost, `1 - WIP`.
pub open spec fn wil_parts(hits: int, ref_len: int, hyp_len: int, total: int) -> (int, int) {
    let w = wip_parts(hits, ref_len, hyp_len, total);
    (w.1 - w.0, w.1)
}

/// Indicates how the input was split for alignment.
#[derive(Debug, Clone, Copy, PartialEq, Eq, Structural)]
pub enum SplitKind {
    /// Split by whitespace into words.
    Words,
    /// Split by Unicode grapheme clusters.
    Graphemes,
}

/// Comprehensive output from computing alignment metrics.
#[derive(Debug, Clone)]
pub struct AlignmentOutput {
    /// Word Error Rate.
    pub wer: Ratio,
    /// Match Error Rate.
    pub mer: Ratio,
    /// Word Information Preserved.
    pub wip: Ratio,
    /// Word Information Lost.
    pub wil: Ratio,
    /// Character Error Rate (only populated by `process_chars`).
    pub cer: Ratio,
    /// Number of matching tokens.
    pub hits: usize,
    /// Number of substitutions.
    pub substitutions: usize,
    /// Number of deletions.
    pub deletions: usize,
    /// Number of insertions.
    pub insertions: usize,
    /// Reference length (in tokens).
    pub ref_len: usize,
    /// Hypothesis length (in tokens).
    pub hyp_len: usize,
    /// Alignment chunks with text.
    pub chunks: Vec<AlignmentChunk>,
}

/// Whether `op` only names positions inside sequences of lengths `m` and `n`.
pub open spec fn op_in_range(op: EditOp, m: int, n: int) -> bool {
    match op {
        EditOp::Equal { index } => index < m,
        EditOp::Substitute { ref_index, hyp_index } => ref_index < m && hyp_index < n,
        EditOp::Insert { hyp_index } => hyp_index < n,
        EditOp::Delete { ref_index } => ref_index < m,
    }
}

/// Every operation of an alignment names positions inside both sequences.
pub proof fn lemma_aligns_from_in_range<A>(a: Seq<A>, b: Seq<A>, ops: Seq<EditOp>, i: int, j: int)
    requires
        aligns_from(a, b, ops, i, j),
    ensures
        forall|k: int| 0 <= k < ops.len() ==> op_in_range(#[trigger] ops[k], a.len() as int, b.len() as int),
    decreases ops.len(),
{
    if ops.len() > 0 {
        lemma_aligns_from_in_range(
            a,
            b,
            ops.drop_first(),
            i + ref_advance(ops[0]),
            j + hyp_advance(ops[0]),
        );
        assert forall|k: int| 0 <= k < ops.len() implies op_in_range(
            #[trigger] ops[k],
            a.len() as int,
            b.len() as int,
        ) by {
            if k > 0 {
                assert(ops[k] == ops.drop_first()[k - 1]);
            }
        }
    }
}

/// The chunk describing `op`: it carries the tokens `op` names.
pub open spec fn chunk_of(a: Seq<Seq<char>>, b: Seq<Seq<char>>, op: EditOp, chunk: AlignmentChunk) -> bool {
    match op {
        EditOp::Equal { index } => chunk matches AlignmentChunk::Equal { text } && text@ == a[index as int],
        EditOp::Substitute { ref_index, hyp_index } => chunk matches AlignmentChunk::Substitute {
            reference,
            hypothesis,
        } && reference@ == a[ref_index as int] && hypothesis@ == b[hyp_index as int],
        EditOp::Insert { hyp_index } => chunk matches AlignmentChunk::Insert { hypothesis }
            && hypothesis@ == b[hyp_index as int],
        EditOp::Delete { ref_index } => chunk matches AlignmentChunk::Delete { reference }
            && reference@ == a[ref_index as int],
    }
}

/// Whether `out` is the output built from the alignment `ops` of `a` against
/// `b`, split as `kind`: the lengths, the operation counts, the rates computed
/// from them, and one chunk per operation carrying its tokens.
pub open spec fn output_of(
    out: AlignmentOutput,
    a: Seq<Seq<char>>,
    b: Seq<Seq<char>>,
    ops: Seq<EditOp>,
    kind: SplitKind,
) -> bool {
    let hits = count_hits(ops) as int;
    let sdi = (count_subs(ops) + count_dels(ops) + count_ins(ops)) as int;
    let total = hits + sdi;
    &&& out.ref_len == a.len()
    &&& out.hyp_len == b.len()
    &&& out.hits == hits
    &&& out.substitutions == count_subs(ops)
    &&& out.deletions == count_dels(ops)
    &&& out.insertions == count_ins(ops)
    &&& ratio_is(out.wer, error_rate_parts(sdi, a.len() as int))
    &&& ratio_is(out.mer, match_error_parts(sdi, total))
    &&& ratio_is(out.wip, wip_parts(hits, a.len() as int, b.len() as int, total))
    &&& ratio_is(out.wil, wil_parts(hits, a.len() as int, b.len() as int, total))
    &&& ratio_is(
        out.cer,
        match kind {
            SplitKind::Graphemes => error_rate_parts(sdi, a.len() as int),
            SplitKind::Words => (0, 1),
        },
    )
    &&& out.chunks@.len() == ops.len()
    &&& forall|k: int| 0 <= k < ops.len() ==> chunk_of(a, b, ops[k], #[trigger] out.chunks@[k])
}

/// The chunk for one edit operation.
fn chunk_for<S: Token>(reference: &[S], hypothesis: &[S], op: &EditOp) -> (chunk: AlignmentChunk)
    requires
        op_in_range(*op, reference@.len() as int, hypothesis@.len() as int),
    ensures
        chunk_of(token_views(reference@), token_views(hypothesis@), *op, chunk),
{
    match op {
        EditOp::Equal { index } => AlignmentChunk::Equal { text: reference[*index].to_text() },
        EditOp::Substitute { ref_index, hyp_index } => AlignmentChunk::Substitute {
            reference: reference[*ref_index].to_text(),
            hypothesis: hypothesis[*hyp_index].to_text(),
        },
        EditOp::Insert { hyp_index } => AlignmentChunk::Insert {
            hypothesis: hypothesis[*hyp_index].to_text(),
        },
        EditOp::Delete { ref_index } => AlignmentChunk::Delete {
            reference: reference[*ref_index].to_text(),
        },
    }
}

/// Build an [`AlignmentOutput`] from alignment results.
pub fn build_output<S: Token>(
    reference: &[S],
    hypothesis: &[S],
    ops: &[EditOp],
    counts: &OperationCounts,
    kind: SplitKind,
) -> (out: AlignmentOutput)
    requires
        is_alignment(token_views(reference@), token_views(hypothesis@), ops@),
        counts_of(*counts, ops@),
    ensures
        output_of(out, token_views(reference@), token_views(hypothesis@), ops@, kind),
        out.hits + out.substitutions + out.deletions == out.ref_len,
        out.hits + out.substitutions + out.insertions == out.hyp_len,
        rates_defined(out),
{
    let ref_len = reference.len();
    let hyp_len = hypothesis.len();
    proof {
        lemma_counts_bounded(ops@);
        lemma_aligns_from_in_range(token_views(reference@), token_views(hypothesis@), ops@, 0, 0);
        crate::alignment::lemma_alignment_counts(token_views(reference@), token_views(hypothesis@), ops@);
    }
    // The operations number at most `usize::MAX`, and so do the totals below.
    let op_count = ops.len();
    assert(counts.hits + counts.substitutions + counts.deletions + counts.insertions == op_count);
    let s_d_i: u128 = counts.substitutions as u128 + counts.deletions as u128 + counts.insertions as u128;
    let total: u128 = counts.hits as u128 + s_d_i;
    let hits: u128 = counts.hits as u128;
    let n: u128 = ref_len as u128;

    let wer = if ref_len == 0 {
        Ratio { numerator: 0, denominator: 1 }
    } else {
        Ratio { numerator: s_d_i, denominator: n }
    };
    let mer = if total == 0 {
        Ratio { numerator: 0, denominator: 1 }
    } else {
        Ratio { numerator: s_d_i, denominator: total }
    };
    let wip = if ref_len == 0 && hyp_len == 0 {
        Ratio { numerator: 1, denominator: 1 }
    } else if ref_len == 0 || hyp_len == 0 || counts.hits == 0 {
        Ratio { numerator: 0, denominator: 1 }
    } else {
        proof {
            assert(hits * hits <= 0xffff_ffff_ffff_ffffu128 * 0xffff_ffff_ffff_ffffu128)
                by (nonlinear_arith)
                requires
                    hits <= 0xffff_ffff_ffff_ffffu128,
            ;
            assert(n * total <= 0xffff_ffff_ffff_ffffu128 * 0xffff_ffff_ffff_ffffu128)
                by (nonlinear_arith)
                requires
                    n <= 0xffff_ffff_ffff_ffffu128,
                    total <= 0xffff_ffff_ffff_ffffu128,
            ;
            assert(hits * hits <= n * total) by (nonlinear_arith)
                requires
                    hits <= n,
                    hits <= total,
            ;
            assert(n * total > 0) by (nonlinear_arith)
                requires
                    n > 0,
                    total > 0,
            ;
        }
        Ratio { numerator: hits * hits, denominator: n * total }
    };
    let wil = Ratio { numerator: wip.denominator - wip.numerator, denominator: wip.denominator };

    let cer = match kind {
        SplitKind::Graphemes => {
            if ref_len == 0 {
                Ratio { numerator: 0, denominator: 1 }
            } else {
                Ratio { numerator: s_d_i, denominator: n }
            }
        },
        SplitKind::Words => Ratio { numerator: 0, denominator: 1 },
    };

    let mut chunks: Vec<AlignmentChunk> = Vec::with_capacity(ops.len());
    let mut k: usize = 0;
    while k < ops.len()
        invariant
            k <= ops@.len(),
            forall|t: int|
                0 <= t < ops@.len() ==> op_in_range(
                    #[trigger] ops@[t],
                    reference@.len() as int,
                    hypothesis@.len() as int,
                ),
            chunks@.len() == k,
            forall|t: int|
                0 <= t < k ==> chunk_of(
                    token_views(reference@),
                    token_views(hypothesis@),
                    ops@[t],
                    #[trigger] chunks@[t],
                ),
        decreases ops@.len() - k,
    {
        let chunk = chunk_for(reference, hypothesis, &ops[k]);
        chunks.push(chunk);
        k += 1;
    }

    AlignmentOutput {
        wer,
        mer,
        wip,
        wil,
        cer,
        hits: counts.hits,
        substitutions: counts.substitutions,
        deletions: counts.deletions,
        insertions: counts.insertions,
        ref_len,
        hyp_len,
        chunks,
    }
}

/// The counts of a sequence of operations add up to its length.
pub proof fn lemma_counts_bounded(ops: Seq<EditOp>)
    ensures
        count_hits(ops) + count_subs(ops) + count_dels(ops) + count_ins(ops) == ops.len(),
    decreases ops.len(),
{
    if ops.len() > 0 {
        lemma_counts_bounded(ops.drop_last());
    }
}

} // verus!

verus! {

/// What the reference line of the visualization shows for a chunk.
pub open spec fn ref_part(c: AlignmentChunk) -> Seq<char> {
    match c {
        AlignmentChunk::Equal { text } => text@,
        AlignmentChunk::Substitute { reference, .. } => reference@,
        AlignmentChunk::Insert { .. } => "*"@,
        AlignmentChunk::Delete { reference } => reference@,
    }
}

/// What the hypothesis line of the visualization shows for a chunk.
pub open spec fn hyp_part(c: AlignmentChunk) -> Seq<char> {
    match c {
        AlignmentChunk::Equal { text } => text@,
        AlignmentChunk::Substitute { hypothesis, .. } => hypothesis@,
        AlignmentChunk::Insert { hypothesis } => hypothesis@,
        AlignmentChunk::Delete { .. } => "*"@,
    }
}

/// The two-line visualization of `chunks`: `REF: ` and the reference parts
/// joined by spaces, then `HYP: ` and the hypothesis parts, each line ending
/// in a newline.
pub open spec fn visualization(chunks: Seq<AlignmentChunk>) -> Seq<char> {
    "REF: "@ + join_with(chunks.map_values(|c: AlignmentChunk| ref_part(c)), " "@) + "\n"@
        + "HYP: "@ + join_with(chunks.map_values(|c: AlignmentChunk| hyp_part(c)), " "@) + "\n"@
}

/// Generate a human-readable alignment visualization.
pub fn visualize_alignment(output: &AlignmentOutput) -> (result: String)
    ensures
        result@ == visualization(output.chunks@),
{
    let ghost chunks = output.chunks@;
    let mut ref_parts: Vec<String> = Vec::new();
    let mut hyp_parts: Vec<String> = Vec::new();
    let mut k: usize = 0;
    while k < output.chunks.len()
        invariant
            k <= chunks.len(),
            chunks == output.chunks@,
            token_views(ref_parts@) =~= chunks.take(k as int).map_values(
                |c: AlignmentChunk| ref_part(c),
            ),
            token_views(hyp_parts@) =~= chunks.take(k as int).map_values(
                |c: AlignmentChunk| hyp_part(c),
            ),
        decreases chunks.len() - k,
    {
        let ghost old_ref = ref_parts@;
        let ghost old_hyp = hyp_parts@;
        match &output.chunks[k] {
            AlignmentChunk::Equal { text } => {
                ref_parts.push(text.clone());
                hyp_parts.push(text.clone());
            },
            AlignmentChunk::Substitute { reference, hypothesis } => {
                ref_parts.push(reference.clone());
                hyp_parts.push(hypothesis.clone());
            },
            AlignmentChunk::Insert { hypothesis } => {
                ref_parts.push("*".to_owned());
                hyp_parts.push(hypothesis.clone());
            },
            AlignmentChunk::Delete { reference } => {
                ref_parts.push(reference.clone());
                hyp_parts.push("*".to_owned());
            },
        }
        proof {
            assert(chunks.take(k + 1) =~= chunks.take(k as int).push(chunks[k as int]));
            assert(token_views(ref_parts@) =~= token_views(old_ref).push(ref_part(chunks[k as int])));
            assert(token_views(hyp_parts@) =~= token_views(old_hyp).push(hyp_part(chunks[k as int])));
        }
        k += 1;
    }
    assert(chunks.take(chunks.len() as int) =~= chunks);
    let ref_line = join(&ref_parts, " ");
    let hyp_line = join(&hyp_parts, " ");
    let mut result = String::new();
    result.append("REF: ");
    result.append(ref_line.as_str());
    result.append("\n");
    result.append("HYP: ");
    result.append(hyp_line.as_str());
    result.append("\n");
    result
}

} // verus!

verus! {

/// A table from texts to how often each occurred; texts that never
/// occurred are absent.
#[derive(Debug)]
pub struct CountMap {
    keys: Vec<String>,
    counts: Vec<usize>,
}

/// Whether no text occurs twice among `keys`.
pub open spec fn distinct_texts(keys: Seq<String>) -> bool {
    forall|x: int, y: int|
        0 <= x < keys.len() && 0 <= y < keys.len() && x != y ==> keys[x]@ != keys[y]@
}

/// The count paired with `key` in parallel sequences of keys and counts (0 when absent).
pub open spec fn count_in(keys: Seq<String>, counts: Seq<usize>, key: Seq<char>) -> nat {
    if exists|x: int| 0 <= x < keys.len() && #[trigger] keys[x]@ == key {
        let x = choose|x: int| 0 <= x < keys.len() && #[trigger] keys[x]@ == key;
        counts[x] as nat
    } else {
        0
    }
}

/// With distinct keys, the count of the key at position `x` is the count at `x`.
pub proof fn lemma_count_in_at(keys: Seq<String>, counts: Seq<usize>, x: int)
    requires
        distinct_texts(keys),
        0 <= x < keys.len(),
    ensures
        count_in(keys, counts, keys[x]@) == counts[x] as nat,
{
    let key = keys[x]@;
    assert(keys[x]@ == key);
    let y = choose|y: int| 0 <= y < keys.len() && #[trigger] keys[y]@ == key;
    assert(y == x);
}

impl CountMap {
    /// The table keeps one entry per distinct text, each with a positive count.
    #[verifier::type_invariant]
    spec fn well_formed(self) -> bool {
        &&& self.keys@.len() == self.counts@.len()
        &&& distinct_texts(self.keys@)
        &&& forall|x: int| 0 <= x < self.counts@.len() ==> #[trigger] self.counts@[x] >= 1
    }

    /// How often `key` occurred (0 when absent).
    pub closed spec fn count(self, key: Seq<char>) -> nat {
        count_in(self.keys@, self.counts@, key)
    }

    /// The number of distinct texts in the table.
    pub closed spec fn size(self) -> nat {
        self.keys@.len()
    }

    /// An empty table.
    pub fn new() -> (m: Self)
        ensures
            forall|key: Seq<char>| m.count(key) == 0,
            m.size() == 0,
    {
        CountMap { keys: Vec::new(), counts: Vec::new() }
    }

    /// Position of `key` in the table, if present.
    fn find(&self, key: &str) -> (r: Option<usize>)
        ensures
            r matches Some(x) ==> x < self.keys@.len() && self.keys@[x as int]@ == key@,
            r is None ==> forall|x: int| 0 <= x < self.keys@.len() ==> self.keys@[x]@ != key@,
    {
        let mut k: usize = 0;
        while k < self.keys.len()
            invariant
                k <= self.keys@.len(),
                forall|x: int| 0 <= x < k ==> self.keys@[x]@ != key@,
            decreases self.keys@.len() - k,
        {
            if crate::text::str_eq(self.keys[k].as_str(), key) {
                return Some(k);
            }
            k += 1;
        }
        None
    }

    /// The count recorded for `key`, if it occurred.
    pub fn get(&self, key: &str) -> (r: Option<&usize>)
        ensures
            r matches Some(c) ==> *c == self.count(key@) && *c >= 1,
            r is None ==> self.count(key@) == 0,
    {
        proof {
            use_type_invariant(self);
        }
        match self.find(key) {
            Some(x) => {
                proof {
                    lemma_count_in_at(self.keys@, self.counts@, x as int);
                }
                Some(&self.counts[x])
            },
            None => None,
        }
    }

    /// Whether `key` occurred.
    pub fn contains_key(&self, key: &str) -> (r: bool)
        ensures
            r == (self.count(key@) > 0),
    {
        self.get(key).is_some()
    }

    /// The number of distinct texts in the table.
    pub fn len(&self) -> (r: usize)
        ensures
            r == self.size(),
    {
        self.keys.len()
    }

    /// Whether nothing occurred.
    pub fn is_empty(&self) -> (r: bool)
        ensures
            r == (self.size() == 0),
            r == (forall|key: Seq<char>| self.count(key) == 0),
    {
        proof {
            use_type_invariant(self);
            if self.keys@.len() > 0 {
                lemma_count_in_at(self.keys@, self.counts@, 0);
                assert(self.count(self.keys@[0]@) > 0);
            }
        }
        self.keys.len() == 0
    }

    /// Record one more occurrence of `key`.
    pub fn increment(&mut self, key: String)
        requires
            old(self).count(key@) < usize::MAX,
        ensures
            forall|k: Seq<char>|
                #![trigger final(self).count(k)]
                final(self).count(k) == if k == key@ {
                    old(self).count(k) + 1
                } else {
                    old(self).count(k)
                },
            final(self).size() == old(self).size() + if old(self).count(key@) == 0 { 1nat } else { 0nat },
    {
        proof {
            use_type_invariant(&*self);
        }
        let found = self.find(key.as_str());
        let ghost old_keys = self.keys@;
        let ghost old_counts = self.counts@;
        let mut taken = CountMap::new();
        std::mem::swap(self, &mut taken);
        let CountMap { keys, counts } = taken;
        let mut keys = keys;
        let mut counts = counts;
        match found {
            Some(x) => {
                proof {
                    lemma_count_in_at(old_keys, old_counts, x as int);
                }
                let c = counts[x];
                counts.set(x, c + 1);
                proof {
                    assert forall|k: Seq<char>|
                        count_in(keys@, counts@, k) == if k == key@ {
                            count_in(old_keys, old_counts, k) + 1
                        } else {
                            count_in(old_keys, old_counts, k)
                        } by {
                        if exists|y: int| 0 <= y < keys@.len() && #[trigger] keys@[y]@ == k {
                            let y = choose|y: int| 0 <= y < keys@.len() && #[trigger] keys@[y]@ == k;
                            lemma_count_in_at(keys@, counts@, y);
                            lemma_count_in_at(old_keys, old_counts, y);
                        }
                    }
                }
            },
            None => {
                keys.push(key);
                counts.push(1);
                proof {
                    assert(distinct_texts(keys@));
                    assert forall|k: Seq<char>|
                        count_in(keys@, counts@, k) == if k == key@ {
                            count_in(old_keys, old_counts, k) + 1
                        } else {
                            count_in(old_keys, old_counts, k)
                        } by {
                        if exists|y: int| 0 <= y < keys@.len() && #[trigger] keys@[y]@ == k {
                            let y = choose|y: int| 0 <= y < keys@.len() && #[trigger] keys@[y]@ == k;
                            lemma_count_in_at(keys@, counts@, y);
                            if y < old_keys.len() {
                                assert(keys@[y] == old_keys[y]);
                                lemma_count_in_at(old_keys, old_counts, y);
                            }
                        } else {
                            assert(keys@[old_keys.len() as int] == key);
                            if exists|y: int| 0 <= y < old_keys.len() && #[trigger] old_keys[y]@ == k {
                                let y = choose|y: int| 0 <= y < old_keys.len() && #[trigger] old_keys[y]@ == k;
                                assert(keys@[y] == old_keys[y]);
                            }
                        }
                    }
                }
            },
        }
        *self = CountMap { keys, counts };
    }
}

impl Clone for CountMap {
    fn clone(&self) -> (r: Self)
        ensures
            forall|k: Seq<char>| r.count(k) == self.count(k),
            r.size() == self.size(),
    {
        proof {
            use_type_invariant(self);
        }
        let keys = self.keys.clone();
        let counts = self.counts.clone();
        proof {
            assert(keys@ =~= self.keys@);
            assert(counts@ =~= self.counts@);
        }
        CountMap { keys, counts }
    }
}

/// The key under which a chunk counts as a substitution: `"ref → hyp"`.
pub open spec fn substitution_key(c: AlignmentChunk) -> Option<Seq<char>> {
    match c {
        AlignmentChunk::Substitute { reference, hypothesis } => Some(
            reference@ + " → "@ + hypothesis@,
        ),
        _ => None,
    }
}

/// The key under which a chunk counts as an insertion: the inserted text.
pub open spec fn insertion_key(c: AlignmentChunk) -> Option<Seq<char>> {
    match c {
        AlignmentChunk::Insert { hypothesis } => Some(hypothesis@),
        _ => None,
    }
}

/// The key under which a chunk counts as a deletion: the deleted text.
pub open spec fn deletion_key(c: AlignmentChunk) -> Option<Seq<char>> {
    match c {
        AlignmentChunk::Delete { reference } => Some(reference@),
        _ => None,
    }
}

/// How many chunks of `chunks` have key `key` under `key_of`.
pub open spec fn occurrences(
    chunks: Seq<AlignmentChunk>,
    key_of: spec_fn(AlignmentChunk) -> Option<Seq<char>>,
    key: Seq<char>,
) -> nat
    decreases chunks.len(),
{
    if chunks.len() == 0 {
        0
    } else {
        occurrences(chunks.drop_last(), key_of, key) + if key_of(chunks.last()) == Some(key) {
            1nat
        } else {
            0nat
        }
    }
}

/// No key occurs more often than there are chunks.
pub proof fn lemma_occurrences_bounded(
    chunks: Seq<AlignmentChunk>,
    key_of: spec_fn(AlignmentChunk) -> Option<Seq<char>>,
    key: Seq<char>,
)
    ensures
        occurrences(chunks, key_of, key) <= chunks.len(),
    decreases chunks.len(),
{
    if chunks.len() > 0 {
        lemma_occurrences_bounded(chunks.drop_last(), key_of, key);
    }
}

/// Error frequency analysis from alignment.
#[derive(Debug, Clone)]
pub struct ErrorCounts {
    /// Map of "ref → hyp" to count for substitutions.
    pub substitutions: CountMap,
    /// Map of inserted text to count.
    pub insertions: CountMap,
    /// Map of deleted text to count.
    pub deletions: CountMap,
}

impl Default for ErrorCounts {
    fn default() -> (r: Self)
        ensures
            forall|key: Seq<char>| #![auto] r.substitutions.count(key) == 0,
            forall|key: Seq<char>| #![auto] r.insertions.count(key) == 0,
            forall|key: Seq<char>| #![auto] r.deletions.count(key) == 0,
    {
        ErrorCounts {
            substitutions: CountMap::new(),
            insertions: CountMap::new(),
            deletions: CountMap::new(),
        }
    }
}

/// Collect error frequency counts from an alignment output.
pub fn collect_error_counts(output: &AlignmentOutput) -> (counts: ErrorCounts)
    ensures
        forall|key: Seq<char>|
            #![trigger counts.substitutions.count(key)]
            counts.substitutions.count(key) == occurrences(
                output.chunks@,
                |c: AlignmentChunk| substitution_key(c),
                key,
            ),
        forall|key: Seq<char>|
            #![trigger counts.insertions.count(key)]
            counts.insertions.count(key) == occurrences(
                output.chunks@,
                |c: AlignmentChunk| insertion_key(c),
                key,
            ),
        forall|key: Seq<char>|
            #![trigger counts.deletions.count(key)]
            counts.deletions.count(key) == occurrences(
                output.chunks@,
                |c: AlignmentChunk| deletion_key(c),
                key,
            ),
{
    let ghost chunks = output.chunks@;
    let ghost sk = |c: AlignmentChunk| substitution_key(c);
    let ghost ik = |c: AlignmentChunk| insertion_key(c);
    let ghost dk = |c: AlignmentChunk| deletion_key(c);
    let mut counts = ErrorCounts::default();
    let mut k: usize = 0;
    while k < output.chunks.len()
        invariant
            k <= chunks.len(),
            chunks == output.chunks@,
            sk == (|c: AlignmentChunk| substitution_key(c)),
            ik == (|c: AlignmentChunk| insertion_key(c)),
            dk == (|c: AlignmentChunk| deletion_key(c)),
            forall|key: Seq<char>|
                #![trigger counts.substitutions.count(key)]
                counts.substitutions.count(key) == occurrences(chunks.take(k as int), sk, key),
            forall|key: Seq<char>|
                #![trigger counts.insertions.count(key)]
                counts.insertions.count(key) == occurrences(chunks.take(k as int), ik, key),
            forall|key: Seq<char>|
                #![trigger counts.deletions.count(key)]
                counts.deletions.count(key) == occurrences(chunks.take(k as int), dk, key),
        decreases chunks.len() - k,
    {
        let ghost prefix = chunks.take(k as int);
        proof {
            assert(chunks.take(k + 1).drop_last() =~= prefix);
            assert(chunks.take(k + 1).last() == chunks[k as int]);
        }
        match &output.chunks[k] {
            AlignmentChunk::Substitute { reference, hypothesis } => {
                let mut key = String::new();
                key.append(reference.as_str());
                key.append(" → ");
                key.append(hypothesis.as_str());
                proof {
                    lemma_occurrences_bounded(prefix, sk, key@);
                }
                counts.substitutions.increment(key);
            },
            AlignmentChunk::Insert { hypothesis } => {
                proof {
                    lemma_occurrences_bounded(prefix, ik, hypothesis@);
                }
                counts.insertions.increment(hypothesis.clone());
            },
            AlignmentChunk::Delete { reference } => {
                proof {
                    lemma_occurrences_bounded(prefix, dk, reference@);
                }
                counts.deletions.increment(reference.clone());
            },
            AlignmentChunk::Equal { .. } => {},
        }
        k += 1;
    }
    assert(chunks.take(chunks.len() as int) =~= chunks);
    counts
}

/// What the reference line of the visualization shows for `op`.
pub open spec fn op_ref_part(a: Seq<Seq<char>>, op: EditOp) -> Seq<char> {
    match op {
        EditOp::Equal { index } => a[index as int],
        EditOp::Substitute { ref_index, .. } => a[ref_index as int],
        EditOp::Insert { .. } => "*"@,
        EditOp::Delete { ref_index } => a[ref_index as int],
    }
}

/// What the hypothesis line of the visualization shows for `op`.
pub open spec fn op_hyp_part(a: Seq<Seq<char>>, b: Seq<Seq<char>>, op: EditOp) -> Seq<char> {
    match op {
        EditOp::Equal { index } => a[index as int],
        EditOp::Substitute { hyp_index, .. } => b[hyp_index as int],
        EditOp::Insert { hyp_index } => b[hyp_index as int],
        EditOp::Delete { .. } => "*"@,
    }
}

/// The visualization of the alignment `ops` of `a` against `b`.
pub open spec fn alignment_picture(a: Seq<Seq<char>>, b: Seq<Seq<char>>, ops: Seq<EditOp>) -> Seq<char> {
    "REF: "@ + join_with(ops.map_values(|op: EditOp| op_ref_part(a, op)), " "@) + "\n"@ + "HYP: "@
        + join_with(ops.map_values(|op: EditOp| op_hyp_part(a, b, op)), " "@) + "\n"@
}

/// The chunks built from an alignment visualize as that alignment.
pub proof fn lemma_visualization_of_output(
    out: AlignmentOutput,
    a: Seq<Seq<char>>,
    b: Seq<Seq<char>>,
    ops: Seq<EditOp>,
    kind: SplitKind,
)
    requires
        output_of(out, a, b, ops, kind),
    ensures
        visualization(out.chunks@) == alignment_picture(a, b, ops),
{
    let c = out.chunks@;
    assert(c.map_values(|ch: AlignmentChunk| ref_part(ch)) =~= ops.map_values(
        |op: EditOp| op_ref_part(a, op),
    )) by {
        assert forall|k: int| 0 <= k < ops.len() implies #[trigger] ref_part(c[k]) == op_ref_part(
            a,
            ops[k],
        ) by {
            assert(chunk_of(a, b, ops[k], c[k]));
        }
    }
    assert(c.map_values(|ch: AlignmentChunk| hyp_part(ch)) =~= ops.map_values(
        |op: EditOp| op_hyp_part(a, b, op),
    )) by {
        assert forall|k: int| 0 <= k < ops.len() implies #[trigger] hyp_part(c[k]) == op_hyp_part(
            a,
            b,
            ops[k],
        ) by {
            assert(chunk_of(a, b, ops[k], c[k]));
        }
    }
}

/// The summary lines of an output: the rates, then the operation counts.
pub open spec fn summary_text(o: AlignmentOutput) -> Seq<char> {
    "WER:  "@ + percentage(o.wer.numerator as nat, o.wer.denominator as nat) + "%\n"@ + "MER:  "@
        + percentage(o.mer.numerator as nat, o.mer.denominator as nat) + "%\n"@ + "WIP:  "@
        + decimal_fraction(o.wip.numerator as nat, o.wip.denominator as nat, 4) + "\n"@ + "WIL:  "@
        + decimal_fraction(o.wil.numerator as nat, o.wil.denominator as nat, 4) + "\n"@ + (if o.cer.numerator
        > 0 {
        "CER:  "@ + percentage(o.cer.numerator as nat, o.cer.denominator as nat) + "%\n"@
    } else {
        seq![]
    }) + "Hits: "@ + decimal_digits(o.hits as nat) + "  Sub: "@ + decimal_digits(
        o.substitutions as nat,
    ) + "  Del: "@ + decimal_digits(o.deletions as nat) + "  Ins: "@ + decimal_digits(
        o.insertions as nat,
    ) + "\n"@
}

/// Whether every rate of `o` has a non-zero denominator.
pub open spec fn rates_defined(o: AlignmentOutput) -> bool {
    &&& o.wer.denominator > 0
    &&& o.mer.denominator > 0
    &&& o.wip.denominator > 0
    &&& o.wil.denominator > 0
    &&& o.cer.denominator > 0
}

impl AlignmentOutput {
    /// The human-readable summary: WER and MER as percentages, WIP and WIL
    /// with four decimals, CER when it is above zero, then the counts.
    pub fn summary(&self) -> (s: String)
        requires
            rates_defined(*self),
        ensures
            s@ == summary_text(*self),
    {
        let mut s = String::new();
        s.append("WER:  ");
        let t = format_percentage(self.wer.numerator, self.wer.denominator);
        s.append(t.as_str());
        s.append("%\n");
        s.append("MER:  ");
        let t = format_percentage(self.mer.numerator, self.mer.denominator);
        s.append(t.as_str());
        s.append("%\n");
        s.append("WIP:  ");
        let t = format_decimal(self.wip.numerator, self.wip.denominator);
        s.append(t.as_str());
        s.append("\n");
        s.append("WIL:  ");
        let t = format_decimal(self.wil.numerator, self.wil.denominator);
        s.append(t.as_str());
        s.append("\n");
        if self.cer.numerator > 0 {
            s.append("CER:  ");
            let t = format_percentage(self.cer.numerator, self.cer.denominator);
            s.append(t.as_str());
            s.append("%\n");
        }
        s.append("Hits: ");
        push_decimal(&mut s, self.hits as u128);
        s.append("  Sub: ");
        push_decimal(&mut s, self.substitutions as u128);
        s.append("  Del: ");
        push_decimal(&mut s, self.deletions as u128);
        s.append("  Ins: ");
        push_decimal(&mut s, self.insertions as u128);
        s.append("\n");
        assert(s@ =~= summary_text(*self));
        s
    }
}

/// The summary of the alignment `ops` of `a` against `b`, split as `kind`:
/// the text [`AlignmentOutput::summary`] gives for the output built from it.
pub open spec fn summary_of(a: Seq<Seq<char>>, b: Seq<Seq<char>>, ops: Seq<EditOp>, kind: SplitKind) -> Seq<char> {
    let hits = count_hits(ops) as int;
    let sdi = (count_subs(ops) + count_dels(ops) + count_ins(ops)) as int;
    let total = hits + sdi;
    let wer = error_rate_parts(sdi, a.len() as int);
    let mer = match_error_parts(sdi, total);
    let wip = wip_parts(hits, a.len() as int, b.len() as int, total);
    let wil = wil_parts(hits, a.len() as int, b.len() as int, total);
    let cer = match kind {
        SplitKind::Graphemes => error_rate_parts(sdi, a.len() as int),
        SplitKind::Words => (0, 1),
    };
    "WER:  "@ + percentage(wer.0 as nat, wer.1 as nat) + "%\n"@ + "MER:  "@ + percentage(
        mer.0 as nat,
        mer.1 as nat,
    ) + "%\n"@ + "WIP:  "@ + decimal_fraction(wip.0 as nat, wip.1 as nat, 4) + "\n"@ + "WIL:  "@
        + decimal_fraction(wil.0 as nat, wil.1 as nat, 4) + "\n"@ + (if cer.0 > 0 {
        "CER:  "@ + percentage(cer.0 as nat, cer.1 as nat) + "%\n"@
    } else {
        seq![]
    }) + "Hits: "@ + decimal_digits(hits as nat) + "  Sub: "@ + decimal_digits(count_subs(ops))
        + "  Del: "@ + decimal_digits(count_dels(ops)) + "  Ins: "@ + decimal_digits(count_ins(ops))
        + "\n"@
}

/// The summary of an output built from an alignment is the summary of that alignment.
pub proof fn lemma_summary_of_output(
    out: AlignmentOutput,
    a: Seq<Seq<char>>,
    b: Seq<Seq<char>>,
    ops: Seq<EditOp>,
    kind: SplitKind,
)
    requires
        output_of(out, a, b, ops, kind),
    ensures
        summary_text(out) == summary_of(a, b, ops, kind),
{
}

} // verus!

verus! {

/// `y + z` ends with `w + z` when `y` ends with `w`.
proof fn lemma_ends_with_add(y: Seq<char>, w: Seq<char>, z: Seq<char>)
    requires
        w.len() <= y.len(),
        y.skip(y.len() - w.len()) == w,
    ensures
        (y + z).skip((y + z).len() - (w + z).len()) == w + z,
{
    assert((y + z).skip((y + z).len() - (w + z).len()) =~= w + z);
}

/// `y + z` begins with `w` when `y` does.
proof fn lemma_starts_with_add(y: Seq<char>, w: Seq<char>, z: Seq<char>)
    requires
        w.len() <= y.len(),
        y.take(w.len() as int) == w,
    ensures
        (y + z).take(w.len() as int) == w,
{
    assert((y + z).take(w.len() as int) =~= w);
}

/// The summary begins with the word error rate as a percentage, and its
/// last line reports, in this order, the hits, substitutions, deletions and
/// insertions of the output.
pub proof fn lemma_summary_lines(o: AlignmentOutput)
    ensures
        ({
            let first = "WER:  "@ + percentage(o.wer.numerator as nat, o.wer.denominator as nat) + "%\n"@;
            let last = "Hits: "@ + decimal_digits(o.hits as nat) + "  Sub: "@ + decimal_digits(
                o.substitutions as nat,
            ) + "  Del: "@ + decimal_digits(o.deletions as nat) + "  Ins: "@ + decimal_digits(
                o.insertions as nat,
            ) + "\n"@;
            let text = summary_text(o);
            &&& text.len() >= first.len() + last.len()
            &&& text.take(first.len() as int) == first
            &&& text.skip(text.len() - last.len()) == last
        }),
{
    let first = "WER:  "@ + percentage(o.wer.numerator as nat, o.wer.denominator as nat) + "%\n"@;
    let cer_line = if o.cer.numerator > 0 {
        "CER:  "@ + percentage(o.cer.numerator as nat, o.cer.denominator as nat) + "%\n"@
    } else {
        seq![]
    };
    let y1 = first + "MER:  "@;
    let y2 = y1 + percentage(o.mer.numerator as nat, o.mer.denominator as nat);
    let y3 = y2 + "%\n"@;
    let y4 = y3 + "WIP:  "@;
    let y5 = y4 + decimal_fraction(o.wip.numerator as nat, o.wip.denominator as nat, 4);
    let y6 = y5 + "\n"@;
    let y7 = y6 + "WIL:  "@;
    let y8 = y7 + decimal_fraction(o.wil.numerator as nat, o.wil.denominator as nat, 4);
    let y9 = y8 + "\n"@;
    let pre = y9 + cer_line;
    assert(first.take(first.len() as int) =~= first);
    lemma_starts_with_add(first, first, "MER:  "@);
    lemma_starts_with_add(y1, first, percentage(o.mer.numerator as nat, o.mer.denominator as nat));
    lemma_starts_with_add(y2, first, "%\n"@);
    lemma_starts_with_add(y3, first, "WIP:  "@);
    lemma_starts_with_add(y4, first, decimal_fraction(o.wip.numerator as nat, o.wip.denominator as nat, 4));
    lemma_starts_with_add(y5, first, "\n"@);
    lemma_starts_with_add(y6, first, "WIL:  "@);
    lemma_starts_with_add(y7, first, decimal_fraction(o.wil.numerator as nat, o.wil.denominator as nat, 4));
    lemma_starts_with_add(y8, first, "\n"@);
    lemma_starts_with_add(y9, first, cer_line);

    let dh = decimal_digits(o.hits as nat);
    let ds = decimal_digits(o.substitutions as nat);
    let dd = decimal_digits(o.deletions as nat);
    let di = decimal_digits(o.insertions as nat);
    let z1 = pre + "Hits: "@;
    assert(z1.skip(z1.len() - ("Hits: "@).len()) =~= "Hits: "@);
    lemma_ends_with_add(z1, "Hits: "@, dh);
    let w2 = "Hits: "@ + dh;
    lemma_ends_with_add(z1 + dh, w2, "  Sub: "@);
    let w3 = w2 + "  Sub: "@;
    lemma_ends_with_add(z1 + dh + "  Sub: "@, w3, ds);
    let w4 = w3 + ds;
    lemma_ends_with_add(z1 + dh + "  Sub: "@ + ds, w4, "  Del: "@);
    let w5 = w4 + "  Del: "@;
    lemma_ends_with_add(z1 + dh + "  Sub: "@ + ds + "  Del: "@, w5, dd);
    let w6 = w5 + dd;
    lemma_ends_with_add(z1 + dh + "  Sub: "@ + ds + "  Del: "@ + dd, w6, "  Ins: "@);
    let w7 = w6 + "  Ins: "@;
    lemma_ends_with_add(z1 + dh + "  Sub: "@ + ds + "  Del: "@ + dd + "  Ins: "@, w7, di);
    let w8 = w7 + di;
    lemma_ends_with_add(z1 + dh + "  Sub: "@ + ds + "  Del: "@ + dd + "  Ins: "@ + di, w8, "\n"@);
    let text = summary_text(o);
    assert(text == z1 + dh + "  Sub: "@ + ds + "  Del: "@ + dd + "  Ins: "@ + di + "\n"@);
    lemma_starts_with_add(pre, first, "Hits: "@ + dh + "  Sub: "@ + ds + "  Del: "@ + dd + "  Ins: "@ + di + "\n"@);
    assert(text =~= pre + ("Hits: "@ + dh + "  Sub: "@ + ds + "  Del: "@ + dd + "  Ins: "@ + di + "\n"@));
}

/// The summary of an alignment begins with its error rate (errors over
/// reference tokens) as a percentage.
pub proof fn lemma_summary_of_first_line(a: Seq<Seq<char>>, b: Seq<Seq<char>>, ops: Seq<EditOp>, kind: SplitKind)
    ensures
        ({
            let errors = (count_subs(ops) + count_dels(ops) + count_ins(ops)) as int;
            let w = error_rate_parts(errors, a.len() as int);
            let first = "WER:  "@ + percentage(w.0 as nat, w.1 as nat) + "%\n"@;
            &&& summary_of(a, b, ops, kind).len() >= first.len()
            &&& summary_of(a, b, ops, kind).take(first.len() as int) == first
        }),
{
    let errors = (count_subs(ops) + count_dels(ops) + count_ins(ops)) as int;
    let w = error_rate_parts(errors, a.len() as int);
    let first = "WER:  "@ + percentage(w.0 as nat, w.1 as nat) + "%\n"@;
    assert(summary_of(a, b, ops, kind).take(first.len() as int) =~= first);
}

} // verus!
