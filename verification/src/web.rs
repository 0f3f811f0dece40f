//! The alignment results as flat records of strings and numbers: the shape
//! in which the WebAssembly bindings hand them to JavaScript.

use vstd::prelude::*;
use crate::alignment::alignment_of;
use crate::metrics::{
    char_error_rate, grapheme_clusters, match_error_rate, word_error_rate, word_info_lost,
    word_info_preserved,
};
use crate::output::{
    AlignmentChunk as Chunk, AlignmentOutput as Output, Ratio, SplitKind, output_of, ratio_is,
    visualization,
};
use crate::text::split_ws;

verus! {

/// A single chunk of an alignment as a record: its kind (`equal`,
/// `substitute`, `insert` or `delete`), the reference text and the
/// hypothesis text (empty where the chunk has none).
pub struct AlignmentChunk {
    kind: String,
    text: String,
    hypothesis: String,
}

impl View for AlignmentChunk {
    type V = (Seq<char>, Seq<char>, Seq<char>);

    closed spec fn view(&self) -> (Seq<char>, Seq<char>, Seq<char>) {
        (self.kind@, self.text@, self.hypothesis@)
    }
}

/// The record of a chunk: kind, reference text, hypothesis text.
pub open spec fn record_of(chunk: Chunk) -> (Seq<char>, Seq<char>, Seq<char>) {
    match chunk {
        Chunk::Equal { text } => ("equal"@, text@, Seq::empty()),
        Chunk::Substitute { reference, hypothesis } => ("substitute"@, reference@, hypothesis@),
        Chunk::Insert { hypothesis } => ("insert"@, Seq::empty(), hypothesis@),
        Chunk::Delete { reference } => ("delete"@, reference@, Seq::empty()),
    }
}

impl Clone for AlignmentChunk {
    fn clone(&self) -> (r: Self)
        ensures
            r@ == self@,
    {
        AlignmentChunk {
            kind: self.kind.clone(),
            text: self.text.clone(),
            hypothesis: self.hypothesis.clone(),
        }
    }
}

impl AlignmentChunk {
    /// The record of `chunk`.
    pub fn from(chunk: &Chunk) -> (r: Self)
        ensures
            r@ == record_of(*chunk),
    {
        match chunk {
            Chunk::Equal { text } => AlignmentChunk {
                kind: "equal".to_owned(),
                text: text.clone(),
                hypothesis: String::new(),
            },
            Chunk::Substitute { reference, hypothesis } => AlignmentChunk {
                kind: "substitute".to_owned(),
                text: reference.clone(),
                hypothesis: hypothesis.clone(),
            },
            Chunk::Insert { hypothesis } => AlignmentChunk {
                kind: "insert".to_owned(),
                text: String::new(),
                hypothesis: hypothesis.clone(),
            },
            Chunk::Delete { reference } => AlignmentChunk {
                kind: "delete".to_owned(),
                text: reference.clone(),
                hypothesis: String::new(),
            },
        }
    }

    /// The type of this chunk: "equal", "substitute", "insert", or "delete".
    pub fn kind(&self) -> (r: String)
        ensures
            r@ == self@.0,
    {
        self.kind.clone()
    }

    /// The reference text (for equal/substitute/delete chunks).
    pub fn text(&self) -> (r: String)
        ensures
            r@ == self@.1,
    {
        self.text.clone()
    }

    /// The hypothesis text (for substitute/insert chunks).
    pub fn hypothesis(&self) -> (r: String)
        ensures
            r@ == self@.2,
    {
        self.hypothesis.clone()
    }
}

/// Whether `records` are the records of `chunks`, one for one.
pub open spec fn records_of(records: Seq<(Seq<char>, Seq<char>, Seq<char>)>, chunks: Seq<Chunk>) -> bool {
    &&& records.len() == chunks.len()
    &&& forall|k: int| 0 <= k < chunks.len() ==> #[trigger] records[k] == record_of(chunks[k])
}

/// Detailed alignment output with all metrics, and its chunks as records.
pub struct AlignmentOutput {
    inner: Output,
    chunks: Vec<AlignmentChunk>,
}

impl AlignmentOutput {
    /// The alignment output that this record presents.
    pub closed spec fn output(self) -> Output {
        self.inner
    }

    /// The records of the chunks, in order.
    pub closed spec fn records(self) -> Seq<(Seq<char>, Seq<char>, Seq<char>)> {
        self.chunks@.map_values(|c: AlignmentChunk| c@)
    }

    #[verifier::type_invariant]
    spec fn records_match(self) -> bool {
        records_of(self.records(), self.inner.chunks@)
    }

    /// The record of `output`, with a record for each of its chunks.
    pub fn from(output: Output) -> (r: Self)
        ensures
            r.output() == output,
            records_of(r.records(), output.chunks@),
    {
        let mut chunks: Vec<AlignmentChunk> = Vec::new();
        let mut k: usize = 0;
        while k < output.chunks.len()
            invariant
                k <= output.chunks@.len(),
                chunks@.len() == k,
                forall|i: int| 0 <= i < k ==> #[trigger] chunks@[i]@ == record_of(output.chunks@[i]),
            decreases output.chunks@.len() - k,
        {
            chunks.push(AlignmentChunk::from(&output.chunks[k]));
            k += 1;
        }
        let r = AlignmentOutput { inner: output, chunks };
        assert(records_of(r.records(), r.inner.chunks@));
        r
    }

    /// Word Error Rate.
    pub fn wer(&self) -> (r: Ratio)
        ensures
            r == self.output().wer,
    {
        self.inner.wer
    }

    /// Match Error Rate.
    pub fn mer(&self) -> (r: Ratio)
        ensures
            r == self.output().mer,
    {
        self.inner.mer
    }

    /// Word Information Preserved.
    pub fn wip(&self) -> (r: Ratio)
        ensures
            r == self.output().wip,
    {
        self.inner.wip
    }

    /// Word Information Lost.
    pub fn wil(&self) -> (r: Ratio)
        ensures
            r == self.output().wil,
    {
        self.inner.wil
    }

    /// Character Error Rate (zero for word-level output).
    pub fn cer(&self) -> (r: Ratio)
        ensures
            r == self.output().cer,
    {
        self.inner.cer
    }

    /// Number of matching tokens.
    pub fn hits(&self) -> (r: usize)
        ensures
            r == self.output().hits,
    {
        self.inner.hits
    }

    /// Number of substitutions.
    pub fn substitutions(&self) -> (r: usize)
        ensures
            r == self.output().substitutions,
    {
        self.inner.substitutions
    }

    /// Number of deletions.
    pub fn deletions(&self) -> (r: usize)
        ensures
            r == self.output().deletions,
    {
        self.inner.deletions
    }

    /// Number of insertions.
    pub fn insertions(&self) -> (r: usize)
        ensures
            r == self.output().insertions,
    {
        self.inner.insertions
    }

    /// Reference length (in tokens).
    pub fn ref_len(&self) -> (r: usize)
        ensures
            r == self.output().ref_len,
    {
        self.inner.ref_len
    }

    /// Hypothesis length (in tokens).
    pub fn hyp_len(&self) -> (r: usize)
        ensures
            r == self.output().hyp_len,
    {
        self.inner.hyp_len
    }

    /// All alignment chunks as records, in order.
    pub fn chunks(&self) -> (r: Vec<AlignmentChunk>)
        ensures
            records_of(r@.map_values(|c: AlignmentChunk| c@), self.output().chunks@),
    {
        proof {
            use_type_invariant(self);
        }
        let mut r: Vec<AlignmentChunk> = Vec::new();
        let mut k: usize = 0;
        while k < self.chunks.len()
            invariant
                k <= self.chunks@.len(),
                r@.len() == k,
                forall|i: int| 0 <= i < k ==> #[trigger] r@[i]@ == self.chunks@[i]@,
            decreases self.chunks@.len() - k,
        {
            r.push(self.chunks[k].clone());
            k += 1;
        }
        assert(r@.map_values(|c: AlignmentChunk| c@) =~= self.records());
        r
    }

    /// A human-readable alignment visualization.
    pub fn visualize(&self) -> (r: String)
        ensures
            r@ == visualization(self.output().chunks@),
    {
        crate::output::visualize_alignment(&self.inner)
    }
}

/// Compute Word Error Rate between reference and hypothesis strings.
pub fn wer(reference: &str, hypothesis: &str) -> (r: Ratio)
    requires
        reference@.len() + hypothesis@.len() <= usize::MAX,
    ensures
        ratio_is(r, word_error_rate(reference@, hypothesis@)),
{
    crate::metrics::wer(reference, hypothesis)
}

/// Compute Character Error Rate at the Unicode grapheme cluster level.
pub fn cer(reference: &str, hypothesis: &str) -> (r: Ratio)
    requires
        reference@.len() + hypothesis@.len() <= usize::MAX,
    ensures
        ratio_is(r, char_error_rate(reference@, hypothesis@)),
{
    crate::metrics::cer(reference, hypothesis)
}

/// Compute Match Error Rate.
pub fn mer(reference: &str, hypothesis: &str) -> (r: Ratio)
    requires
        reference@.len() + hypothesis@.len() <= usize::MAX,
    ensures
        ratio_is(r, match_error_rate(reference@, hypothesis@)),
{
    crate::metrics::mer(reference, hypothesis)
}

/// Compute Word Information Preserved.
pub fn wip(reference: &str, hypothesis: &str) -> (r: Ratio)
    requires
        reference@.len() + hypothesis@.len() <= usize::MAX,
    ensures
        ratio_is(r, word_info_preserved(reference@, hypothesis@)),
{
    crate::metrics::wip(reference, hypothesis)
}

/// Compute Word Information Lost.
pub fn wil(reference: &str, hypothesis: &str) -> (r: Ratio)
    requires
        reference@.len() + hypothesis@.len() <= usize::MAX,
    ensures
        ratio_is(r, word_info_lost(reference@, hypothesis@)),
{
    crate::metrics::wil(reference, hypothesis)
}

/// Compute all word-level metrics and return the detailed output as records.
pub fn process_words(reference: &str, hypothesis: &str) -> (r: AlignmentOutput)
    requires
        reference@.len() + hypothesis@.len() <= usize::MAX,
    ensures
        output_of(
            r.output(),
            split_ws(reference@),
            split_ws(hypothesis@),
            alignment_of(split_ws(reference@), split_ws(hypothesis@)),
            SplitKind::Words,
        ),
        ratio_is(r.output().wer, word_error_rate(reference@, hypothesis@)),
        records_of(r.records(), r.output().chunks@),
{
    AlignmentOutput::from(crate::metrics::process_words(reference, hypothesis))
}

/// Compute all character-level metrics and return the detailed output as records.
pub fn process_chars(reference: &str, hypothesis: &str) -> (r: AlignmentOutput)
    requires
        reference@.len() + hypothesis@.len() <= usize::MAX,
    ensures
        output_of(
            r.output(),
            grapheme_clusters(reference@),
            grapheme_clusters(hypothesis@),
            alignment_of(grapheme_clusters(reference@), grapheme_clusters(hypothesis@)),
            SplitKind::Graphemes,
        ),
        ratio_is(r.output().wer, char_error_rate(reference@, hypothesis@)),
        records_of(r.records(), r.output().chunks@),
{
    AlignmentOutput::from(crate::metrics::process_chars(reference, hypothesis))
}

} // verus!
