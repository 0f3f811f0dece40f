use vstd::prelude::*;
use unicode_segmentation::UnicodeSegmentation;
use crate::chinese::{ChineseTokenizer, jieba_segments};
use crate::text::{
    chars_of, is_white_space, is_whitespace, join, join_with, push_char, split_whitespace, split_ws,
    string_of_chars, token_views,
};

verus! {

/// Trait for text transformations that can be chained in a pipeline.
pub trait Transform: Send + Sync {
    /// The text that the transformation makes of `input`.
    spec fn transformed(&self, input: Seq<char>) -> Seq<char>;

    /// Apply the transformation to input text and return the result.
    fn transform(&self, input: &str) -> (r: String)
        ensures
            r@ == self.transformed(input@),
    ;
}

/// The result of applying `transforms` in order to `input`.
pub open spec fn apply_all(transforms: Seq<Box<dyn Transform>>, input: Seq<char>) -> Seq<char>
    decreases transforms.len(),
{
    if transforms.len() == 0 {
        input
    } else {
        transforms.last().transformed(apply_all(transforms.drop_last(), input))
    }
}

/// Chain multiple transforms into a pipeline.
pub struct Compose {
    transforms: Vec<Box<dyn Transform>>,
}

impl Compose {
    /// Create a new composition of transforms.
    pub fn new(transforms: Vec<Box<dyn Transform>>) -> (r: Self)
        ensures
            r.steps() == transforms@,
    {
        Self { transforms }
    }

    /// The transforms of the pipeline, in order.
    pub closed spec fn steps(&self) -> Seq<Box<dyn Transform>> {
        self.transforms@
    }
}

impl Transform for Compose {
    open spec fn transformed(&self, input: Seq<char>) -> Seq<char> {
        apply_all(self.steps(), input)
    }

    fn transform(&self, input: &str) -> (r: String) {
        let mut text = input.to_owned();
        let mut k: usize = 0;
        while k < self.transforms.len()
            invariant
                k <= self.transforms@.len(),
                text@ == apply_all(self.transforms@.take(k as int), input@),
            decreases self.transforms@.len() - k,
        {
            proof {
                assert(self.transforms@.take(k + 1).drop_last() =~= self.transforms@.take(k as int));
            }
            text = self.transforms[k].transform(text.as_str());
            k += 1;
        }
        assert(self.transforms@.take(self.transforms@.len() as int) =~= self.transforms@);
        text
    }
}

/// The characters of `s` that satisfy `keep`, in order.
pub open spec fn retain(s: Seq<char>, keep: spec_fn(char) -> bool) -> Seq<char>
    decreases s.len(),
{
    if s.len() == 0 {
        seq![]
    } else if keep(s.last()) {
        retain(s.drop_last(), keep).push(s.last())
    } else {
        retain(s.drop_last(), keep)
    }
}

/// The lowercase form of a text, as `str::to_lowercase` gives it.
pub uninterp spec fn lowercase_of(text: Seq<char>) -> Seq<char>;

/// The uppercase form of a text, as `str::to_uppercase` gives it.
pub uninterp spec fn uppercase_of(text: Seq<char>) -> Seq<char>;

/// Whether `c` is alphabetic or numeric, as `char::is_alphanumeric` decides
/// (the Unicode `Alphabetic` property or a numeric general category).
pub uninterp spec fn is_alphanumeric_char(c: char) -> bool;

/// The words that `unicode-segmentation` finds in a text (`unicode_words`).
pub uninterp spec fn unicode_words_of(text: Seq<char>) -> Seq<Seq<char>>;

/// `str::to_lowercase`: the lowercase form of `s` under Unicode case
/// mapping; which characters it yields is named, not stated.
#[verifier::external_body]
pub(crate) fn to_lowercase(s: &str) -> (r: String)
    ensures
        r@ == lowercase_of(s@),
{
    s.to_lowercase()
}

/// `str::to_uppercase`: the uppercase form of `s` under Unicode case
/// mapping; which characters it yields is named, not stated.
#[verifier::external_body]
fn to_uppercase(s: &str) -> (r: String)
    ensures
        r@ == uppercase_of(s@),
{
    s.to_uppercase()
}

/// `char::is_alphanumeric`; the Unicode property tables it consults are named, not stated.
#[verifier::external_body]
fn is_alphanumeric(c: char) -> (r: bool)
    ensures
        r == is_alphanumeric_char(c),
{
    c.is_alphanumeric()
}

/// `UnicodeSegmentation::unicode_words(s).count()`: how many words the
/// Unicode word-boundary rules find in `s`; which words they are is named, not stated.
#[verifier::external_body]
fn unicode_word_count(s: &str) -> (r: usize)
    ensures
        r == unicode_words_of(s@).len(),
{
    s.unicode_words().count()
}

/// Whether `c` counts as punctuation: neither alphanumeric nor whitespace,
/// and not part of any Unicode word.
pub open spec fn is_punctuation(c: char) -> bool {
    !is_alphanumeric_char(c) && !is_white_space(c) && unicode_words_of(seq![c]).len() == 0
}

/// Check if a char is a Unicode punctuation character.
/// Uses unicode-segmentation's word boundary logic: a char is punctuation
/// if it's not a letter, number, or whitespace and has zero word segments.
fn is_unicode_punctuation(c: char) -> (r: bool)
    ensures
        r == is_punctuation(c),
{
    if is_alphanumeric(c) || is_whitespace(c) {
        return false;
    }
    let mut single = String::new();
    push_char(&mut single, c);
    assert(single@ =~= seq![c]);
    unicode_word_count(single.as_str()) == 0
}

/// The characters of `input` that are not punctuation.
pub open spec fn without_punctuation(input: Seq<char>) -> Seq<char> {
    retain(input, |c: char| !is_punctuation(c))
}

/// The characters of `input` that are not whitespace.
pub open spec fn without_whitespace(input: Seq<char>) -> Seq<char> {
    retain(input, |c: char| !is_white_space(c))
}

/// Convert text to lowercase.
pub struct ToLower;

impl Transform for ToLower {
    open spec fn transformed(&self, input: Seq<char>) -> Seq<char> {
        lowercase_of(input)
    }

    fn transform(&self, input: &str) -> (r: String) {
        to_lowercase(input)
    }
}

/// Convert text to uppercase.
pub struct ToUpper;

impl Transform for ToUpper {
    open spec fn transformed(&self, input: Seq<char>) -> Seq<char> {
        uppercase_of(input)
    }

    fn transform(&self, input: &str) -> (r: String) {
        to_uppercase(input)
    }
}

/// Remove Unicode punctuation characters.
pub struct RemovePunctuation;

impl Transform for RemovePunctuation {
    open spec fn transformed(&self, input: Seq<char>) -> Seq<char> {
        without_punctuation(input)
    }

    fn transform(&self, input: &str) -> (r: String) {
        let chars = chars_of(input);
        let mut result = String::new();
        let mut k: usize = 0;
        while k < chars.len()
            invariant
                k <= chars@.len(),
                chars@ == input@,
                result@ == without_punctuation(chars@.take(k as int)),
            decreases chars@.len() - k,
        {
            proof {
                assert(chars@.take(k + 1).drop_last() =~= chars@.take(k as int));
            }
            if !is_unicode_punctuation(chars[k]) {
                push_char(&mut result, chars[k]);
            }
            k += 1;
        }
        assert(chars@.take(chars@.len() as int) =~= chars@);
        result
    }
}

/// Remove all whitespace characters.
pub struct RemoveWhitespace;

impl Transform for RemoveWhitespace {
    open spec fn transformed(&self, input: Seq<char>) -> Seq<char> {
        without_whitespace(input)
    }

    fn transform(&self, input: &str) -> (r: String) {
        let chars = chars_of(input);
        let mut result = String::new();
        let mut k: usize = 0;
        while k < chars.len()
            invariant
                k <= chars@.len(),
                chars@ == input@,
                result@ == without_whitespace(chars@.take(k as int)),
            decreases chars@.len() - k,
        {
            proof {
                assert(chars@.take(k + 1).drop_last() =~= chars@.take(k as int));
            }
            if !is_whitespace(chars[k]) {
                push_char(&mut result, chars[k]);
            }
            k += 1;
        }
        assert(chars@.take(chars@.len() as int) =~= chars@);
        result
    }
}

/// `s` without its leading whitespace.
pub open spec fn trim_start(s: Seq<char>) -> Seq<char>
    decreases s.len(),
{
    if s.len() > 0 && is_white_space(s[0]) {
        trim_start(s.drop_first())
    } else {
        s
    }
}

/// `s` without its trailing whitespace.
pub open spec fn trim_end(s: Seq<char>) -> Seq<char>
    decreases s.len(),
{
    if s.len() > 0 && is_white_space(s.last()) {
        trim_end(s.drop_last())
    } else {
        s
    }
}

/// `s` without leading and trailing whitespace.
pub open spec fn trimmed(s: Seq<char>) -> Seq<char> {
    trim_end(trim_start(s))
}

/// Strip leading and trailing whitespace.
pub struct Strip;

impl Transform for Strip {
    open spec fn transformed(&self, input: Seq<char>) -> Seq<char> {
        trimmed(input)
    }

    fn transform(&self, input: &str) -> (r: String) {
        let chars = chars_of(input);
        let n = chars.len();
        let mut start: usize = 0;
        assert(chars@.subrange(0, n as int) =~= chars@);
        while start < n && is_whitespace(chars[start])
            invariant
                start <= n,
                n == chars@.len(),
                trim_start(chars@) == trim_start(chars@.subrange(start as int, n as int)),
            decreases n - start,
        {
            proof {
                assert(chars@.subrange(start as int, n as int).drop_first() =~= chars@.subrange(
                    start + 1,
                    n as int,
                ));
            }
            start += 1;
        }
        let mut end: usize = n;
        while end > start && is_whitespace(chars[end - 1])
            invariant
                start <= end <= n,
                n == chars@.len(),
                trim_start(chars@) == chars@.subrange(start as int, n as int),
                trim_end(chars@.subrange(start as int, n as int)) == trim_end(
                    chars@.subrange(start as int, end as int),
                ),
            decreases end - start,
        {
            proof {
                assert(chars@.subrange(start as int, end as int).drop_last() =~= chars@.subrange(
                    start as int,
                    end - 1,
                ));
            }
            end -= 1;
        }
        string_of_chars(&chars, start, end)
    }
}

/// `s` with every run of spaces shortened to a single space.
pub open spec fn collapse_spaces(s: Seq<char>) -> Seq<char>
    decreases s.len(),
{
    if s.len() == 0 {
        seq![]
    } else if s.last() == ' ' && s.len() >= 2 && s[s.len() - 2] == ' ' {
        collapse_spaces(s.drop_last())
    } else {
        collapse_spaces(s.drop_last()).push(s.last())
    }
}

/// The characters of `chars` with every run of spaces shortened to one space.
fn collapse_chars(chars: &Vec<char>) -> (r: Vec<char>)
    ensures
        r@ == collapse_spaces(chars@),
{
    let mut result: Vec<char> = Vec::with_capacity(chars.len());
    let mut prev_space = false;
    let mut k: usize = 0;
    while k < chars.len()
        invariant
            k <= chars@.len(),
            prev_space == (k > 0 && chars@[k - 1] == ' '),
            result@ == collapse_spaces(chars@.take(k as int)),
        decreases chars@.len() - k,
    {
        let c = chars[k];
        proof {
            let p = chars@.take(k + 1);
            assert(p.drop_last() =~= chars@.take(k as int));
            assert(p.last() == c);
            if k > 0 {
                assert(p[p.len() - 2] == chars@[k - 1]);
            }
        }
        if c == ' ' {
            if !prev_space {
                result.push(c);
                prev_space = true;
            }
        } else {
            result.push(c);
            prev_space = false;
        }
        k += 1;
    }
    assert(chars@.take(chars@.len() as int) =~= chars@);
    result
}

/// Collapse multiple consecutive spaces into one.
pub struct RemoveMultipleSpaces;

impl Transform for RemoveMultipleSpaces {
    open spec fn transformed(&self, input: Seq<char>) -> Seq<char> {
        collapse_spaces(input)
    }

    fn transform(&self, input: &str) -> (r: String) {
        let chars = chars_of(input);
        let collapsed = collapse_chars(&chars);
        string_of_chars(&collapsed, 0, collapsed.len())
    }
}

/// Whether `c` is a Chinese or Japanese character written without spaces
/// between words: Hiragana, Katakana, or a CJK unified or compatibility ideograph.
pub open spec fn is_cjk(c: char) -> bool {
    ||| ('\u{3040}' <= c && c <= '\u{30ff}')
    ||| ('\u{3400}' <= c && c <= '\u{4dbf}')
    ||| ('\u{4e00}' <= c && c <= '\u{9fff}')
    ||| ('\u{f900}' <= c && c <= '\u{faff}')
    ||| ('\u{20000}' <= c && c <= '\u{2fa1f}')
}

/// Whether `c` is a CJK character (see [`is_cjk`]).
fn is_cjk_char(c: char) -> (r: bool)
    ensures
        r == is_cjk(c),
{
    ('\u{3040}' <= c && c <= '\u{30ff}') || ('\u{3400}' <= c && c <= '\u{4dbf}') || ('\u{4e00}'
        <= c && c <= '\u{9fff}') || ('\u{f900}' <= c && c <= '\u{faff}') || ('\u{20000}' <= c
        && c <= '\u{2fa1f}')
}

/// Whether position `k` of `t` is a space with a CJK character on each side.
pub open spec fn cjk_gap(t: Seq<char>, k: int) -> bool {
    &&& t[k] == ' '
    &&& 0 < k
    &&& k + 1 < t.len()
    &&& is_cjk(t[k - 1])
    &&& is_cjk(t[k + 1])
}

/// The first `n` characters of `t`, leaving out spaces between CJK characters.
pub open spec fn without_cjk_gaps(t: Seq<char>, n: nat) -> Seq<char>
    decreases n,
{
    if n == 0 {
        seq![]
    } else if cjk_gap(t, n - 1) {
        without_cjk_gaps(t, (n - 1) as nat)
    } else {
        without_cjk_gaps(t, (n - 1) as nat).push(t[n - 1])
    }
}

/// `s` with runs of spaces collapsed and the spaces between CJK characters removed.
pub open spec fn normalized_spaces(s: Seq<char>) -> Seq<char> {
    without_cjk_gaps(collapse_spaces(s), collapse_spaces(s).len())
}

/// Collapse consecutive spaces and remove the spaces between CJK characters.
pub struct NormalizeSpaces;

impl Transform for NormalizeSpaces {
    open spec fn transformed(&self, input: Seq<char>) -> Seq<char> {
        normalized_spaces(input)
    }

    fn transform(&self, input: &str) -> (r: String) {
        let chars = chars_of(input);
        let t = collapse_chars(&chars);
        let mut result = String::new();
        let mut k: usize = 0;
        while k < t.len()
            invariant
                k <= t@.len(),
                result@ == without_cjk_gaps(t@, k as nat),
            decreases t@.len() - k,
        {
            let gap = t[k] == ' ' && k > 0 && k + 1 < t.len() && is_cjk_char(t[k - 1]) && is_cjk_char(
                t[k + 1],
            );
            if !gap {
                push_char(&mut result, t[k]);
            }
            k += 1;
        }
        result
    }
}

/// The replacement bound to `key` in `pairs`: the value of the last pair
/// whose key is `key`, if any.
pub open spec fn binding(pairs: Seq<(Seq<char>, Seq<char>)>, key: Seq<char>) -> Option<Seq<char>>
    decreases pairs.len(),
{
    if pairs.len() == 0 {
        None
    } else if pairs.last().0 == key {
        Some(pairs.last().1)
    } else {
        binding(pairs.drop_last(), key)
    }
}

/// A word after substitution: its replacement when its lowercase form is
/// bound in `pairs`, otherwise the word itself.
pub open spec fn substituted_word(pairs: Seq<(Seq<char>, Seq<char>)>, word: Seq<char>) -> Seq<char> {
    match binding(pairs, lowercase_of(word)) {
        Some(v) => v,
        None => word,
    }
}

/// Replace whole words using a substitution map.
pub struct SubstituteWords {
    substitutions: Vec<(String, String)>,
}

impl SubstituteWords {
    /// The (lowercase key, replacement) pairs, in the order they were given.
    pub closed spec fn pairs(&self) -> Seq<(Seq<char>, Seq<char>)> {
        self.substitutions@.map_values(|p: (String, String)| (p.0@, p.1@))
    }

    /// Create a new substitution map. Keys are matched case-insensitively;
    /// when a key is given twice, the later replacement wins.
    pub fn new(pairs: Vec<(&str, &str)>) -> (r: Self)
        ensures
            r.pairs() == pairs@.map_values(|p: (&str, &str)| (lowercase_of(p.0@), p.1@)),
    {
        let mut substitutions: Vec<(String, String)> = Vec::with_capacity(pairs.len());
        let mut k: usize = 0;
        while k < pairs.len()
            invariant
                k <= pairs@.len(),
                substitutions@.map_values(|p: (String, String)| (p.0@, p.1@)) =~= pairs@.take(
                    k as int,
                ).map_values(|p: (&str, &str)| (lowercase_of(p.0@), p.1@)),
            decreases pairs@.len() - k,
        {
            let (key, value) = pairs[k];
            let ghost before = substitutions@;
            let entry = (to_lowercase(key), value.to_owned());
            substitutions.push(entry);
            proof {
                assert(pairs@.take(k + 1) =~= pairs@.take(k as int).push(pairs@[k as int]));
                assert(substitutions@ =~= before.push(entry));
                assert(substitutions@.map_values(|p: (String, String)| (p.0@, p.1@)) =~= before.map_values(
                    |p: (String, String)| (p.0@, p.1@),
                ).push((entry.0@, entry.1@)));
            }
            k += 1;
        }
        assert(pairs@.take(pairs@.len() as int) =~= pairs@);
        Self { substitutions }
    }

    /// The replacement for `word`, looked up by its lowercase form.
    fn substitute(&self, word: &String) -> (r: String)
        ensures
            r@ == substituted_word(self.pairs(), word@),
    {
        let lower = to_lowercase(word.as_str());
        let ghost pairs = self.pairs();
        let mut k = self.substitutions.len();
        assert(pairs.take(k as int) =~= pairs);
        while k > 0
            invariant
                k <= self.substitutions@.len(),
                pairs == self.pairs(),
                lower@ == lowercase_of(word@),
                binding(pairs, lower@) == binding(pairs.take(k as int), lower@),
            decreases k,
        {
            proof {
                assert(pairs.take(k as int).drop_last() =~= pairs.take(k - 1));
                assert(pairs.take(k as int).last() == pairs[k - 1]);
            }
            assert(pairs[k - 1] == (self.substitutions@[k - 1].0@, self.substitutions@[k - 1].1@));
            if self.substitutions[k - 1].0 == lower {
                let r = self.substitutions[k - 1].1.clone();
                proof {
                    assert(pairs.take(k as int).last().0 == lower@);
                    assert(binding(pairs.take(k as int), lower@) == Some(pairs[k - 1].1));
                }
                return r;
            }
            k -= 1;
        }
        word.clone()
    }
}

impl Transform for SubstituteWords {
    open spec fn transformed(&self, input: Seq<char>) -> Seq<char> {
        join_with(
            split_ws(input).map_values(|w: Seq<char>| substituted_word(self.pairs(), w)),
            " "@,
        )
    }

    fn transform(&self, input: &str) -> (r: String) {
        let words = split_whitespace(input);
        let ghost ws = token_views(words@);
        let mut out: Vec<String> = Vec::with_capacity(words.len());
        let mut k: usize = 0;
        while k < words.len()
            invariant
                k <= words@.len(),
                ws == token_views(words@),
                token_views(out@) =~= ws.take(k as int).map_values(
                    |w: Seq<char>| substituted_word(self.pairs(), w),
                ),
            decreases words@.len() - k,
        {
            let s = self.substitute(&words[k]);
            let ghost before = out@;
            out.push(s);
            proof {
                assert(ws.take(k + 1) =~= ws.take(k as int).push(ws[k as int]));
                assert(token_views(out@) =~= token_views(before).push(s@));
            }
            k += 1;
        }
        assert(ws.take(words@.len() as int) =~= ws);
        join(&out, " ")
    }
}

/// The words of `words` whose lowercase form is not among `banned`.
pub open spec fn kept_words(words: Seq<Seq<char>>, banned: Seq<Seq<char>>) -> Seq<Seq<char>>
    decreases words.len(),
{
    if words.len() == 0 {
        seq![]
    } else if banned.contains(lowercase_of(words.last())) {
        kept_words(words.drop_last(), banned)
    } else {
        kept_words(words.drop_last(), banned).push(words.last())
    }
}

/// Remove specific words from text.
pub struct RemoveSpecificWords {
    words: Vec<String>,
}

impl RemoveSpecificWords {
    /// The lowercase forms of the words to remove.
    pub closed spec fn banned(&self) -> Seq<Seq<char>> {
        token_views(self.words@)
    }

    /// Create a new filter that removes the specified words (case-insensitively).
    pub fn new(words: &[&str]) -> (r: Self)
        ensures
            r.banned() == words@.map_values(|w: &str| lowercase_of(w@)),
    {
        let mut lowered: Vec<String> = Vec::with_capacity(words.len());
        let mut k: usize = 0;
        while k < words.len()
            invariant
                k <= words@.len(),
                token_views(lowered@) =~= words@.take(k as int).map_values(
                    |w: &str| lowercase_of(w@),
                ),
            decreases words@.len() - k,
        {
            let ghost before = lowered@;
            let lw = to_lowercase(words[k]);
            lowered.push(lw);
            proof {
                assert(words@.take(k + 1) =~= words@.take(k as int).push(words@[k as int]));
                assert(token_views(lowered@) =~= token_views(before).push(lw@));
            }
            k += 1;
        }
        assert(words@.take(words@.len() as int) =~= words@);
        Self { words: lowered }
    }

    /// Whether `lower` is one of the words to remove.
    fn is_banned(&self, lower: &String) -> (r: bool)
        ensures
            r == self.banned().contains(lower@),
    {
        let mut k: usize = 0;
        while k < self.words.len()
            invariant
                k <= self.words@.len(),
                forall|t: int| 0 <= t < k ==> self.words@[t]@ != lower@,
            decreases self.words@.len() - k,
        {
            if self.words[k] == *lower {
                proof {
                    assert(self.banned()[k as int] == lower@);
                }
                return true;
            }
            k += 1;
        }
        proof {
            if self.banned().contains(lower@) {
                let t = choose|t: int| 0 <= t < self.banned().len() && self.banned()[t] == lower@;
                assert(self.words@[t]@ == lower@);
            }
        }
        false
    }
}

impl Transform for RemoveSpecificWords {
    open spec fn transformed(&self, input: Seq<char>) -> Seq<char> {
        join_with(kept_words(split_ws(input), self.banned()), " "@)
    }

    fn transform(&self, input: &str) -> (r: String) {
        let words = split_whitespace(input);
        let ghost ws = token_views(words@);
        let mut out: Vec<String> = Vec::with_capacity(words.len());
        let mut k: usize = 0;
        while k < words.len()
            invariant
                k <= words@.len(),
                ws == token_views(words@),
                token_views(out@) == kept_words(ws.take(k as int), self.banned()),
            decreases words@.len() - k,
        {
            proof {
                assert(ws.take(k + 1).drop_last() =~= ws.take(k as int));
                assert(ws.take(k + 1).last() == words@[k as int]@);
            }
            let lower = to_lowercase(words[k].as_str());
            if !self.is_banned(&lower) {
                let ghost before = out@;
                out.push(words[k].clone());
                proof {
                    assert(token_views(out@) =~= token_views(before).push(words@[k as int]@));
                }
            }
            k += 1;
        }
        assert(ws.take(words@.len() as int) =~= ws);
        join(&out, " ")
    }
}

/// `s` with every occurrence of `pat`, found scanning from the left and not
/// overlapping one already replaced, replaced by `rep` (like `str::replace`).
/// An empty pattern leaves `s` unchanged.
pub open spec fn replace_all(s: Seq<char>, pat: Seq<char>, rep: Seq<char>) -> Seq<char>
    decreases s.len(),
{
    if pat.len() == 0 || s.len() == 0 {
        s
    } else if s.len() >= pat.len() && s.take(pat.len() as int) == pat {
        rep + replace_all(s.skip(pat.len() as int), pat, rep)
    } else {
        seq![s[0]] + replace_all(s.drop_first(), pat, rep)
    }
}

/// Whether `pat` occurs in `s` at position `i`.
fn occurs_at(s: &Vec<char>, i: usize, pat: &Vec<char>) -> (r: bool)
    requires
        i + pat@.len() <= s@.len(),
    ensures
        r == (s@.subrange(i as int, i + pat@.len()) == pat@),
{
    let n = s.len();
    let mut k: usize = 0;
    while k < pat.len()
        invariant
            k <= pat@.len(),
            n == s@.len(),
            i + pat@.len() <= s@.len(),
            forall|t: int| 0 <= t < k ==> s@[i + t] == pat@[t],
        decreases pat@.len() - k,
    {
        if s[i + k] != pat[k] {
            proof {
                assert(s@.subrange(i as int, i + pat@.len())[k as int] != pat@[k as int]);
            }
            return false;
        }
        k += 1;
    }
    assert(s@.subrange(i as int, i + pat@.len()) =~= pat@);
    true
}

/// Replace every occurrence of `pat` in `s` by `rep`, scanning from the left.
fn replace_chars(s: &Vec<char>, pat: &Vec<char>, rep: &Vec<char>) -> (r: Vec<char>)
    ensures
        r@ == replace_all(s@, pat@, rep@),
{
    let mut out: Vec<char> = Vec::new();
    if pat.len() == 0 {
        let mut k: usize = 0;
        while k < s.len()
            invariant
                k <= s@.len(),
                out@ == s@.take(k as int),
            decreases s@.len() - k,
        {
            out.push(s[k]);
            proof {
                assert(s@.take(k + 1) =~= s@.take(k as int).push(s@[k as int]));
            }
            k += 1;
        }
        assert(s@.take(s@.len() as int) =~= s@);
        return out;
    }
    let mut i: usize = 0;
    assert(s@.skip(0) =~= s@);
    while i < s.len()
        invariant
            i <= s@.len(),
            pat@.len() > 0,
            out@ + replace_all(s@.skip(i as int), pat@, rep@) == replace_all(s@, pat@, rep@),
        decreases s@.len() - i,
    {
        let ghost rest = s@.skip(i as int);
        if pat.len() <= s.len() - i && occurs_at(s, i, pat) {
            proof {
                assert(rest.take(pat@.len() as int) =~= s@.subrange(i as int, i + pat@.len()));
                assert(rest.skip(pat@.len() as int) =~= s@.skip(i + pat@.len()));
            }
            let ghost before = out@;
            let mut k: usize = 0;
            while k < rep.len()
                invariant
                    k <= rep@.len(),
                    out@ == before + rep@.take(k as int),
                decreases rep@.len() - k,
            {
                out.push(rep[k]);
                proof {
                    assert(rep@.take(k + 1) =~= rep@.take(k as int).push(rep@[k as int]));
                }
                k += 1;
            }
            proof {
                assert(rep@.take(rep@.len() as int) =~= rep@);
                assert(before + (rep@ + replace_all(s@.skip(i + pat@.len()), pat@, rep@)) =~= (before
                    + rep@) + replace_all(s@.skip(i + pat@.len()), pat@, rep@));
            }
            i += pat.len();
        } else {
            proof {
                if rest.len() >= pat@.len() {
                    assert(rest.take(pat@.len() as int) =~= s@.subrange(i as int, i + pat@.len()));
                }
                assert(rest.drop_first() =~= s@.skip(i + 1));
            }
            let ghost before = out@;
            out.push(s[i]);
            proof {
                assert(before + (seq![s@[i as int]] + replace_all(s@.skip(i + 1), pat@, rep@)) =~= out@
                    + replace_all(s@.skip(i + 1), pat@, rep@));
            }
            i += 1;
        }
    }
    assert(out@ + replace_all(s@.skip(i as int), pat@, rep@) =~= out@);
    out
}

/// The contractions that are expanded, each with its expansion, in the
/// order in which they are replaced.
pub open spec fn contraction_table() -> Seq<(Seq<char>, Seq<char>)> {
    seq![
        ("wouldn't"@, "would not"@),
        ("couldn't"@, "could not"@),
        ("shouldn't"@, "should not"@),
        ("mustn't"@, "must not"@),
        ("needn't"@, "need not"@),
        ("hasn't"@, "has not"@),
        ("haven't"@, "have not"@),
        ("hadn't"@, "had not"@),
        ("wasn't"@, "was not"@),
        ("weren't"@, "were not"@),
        ("isn't"@, "is not"@),
        ("aren't"@, "are not"@),
        ("don't"@, "do not"@),
        ("doesn't"@, "does not"@),
        ("didn't"@, "did not"@),
        ("won't"@, "will not"@),
        ("can't"@, "cannot"@),
        ("shan't"@, "shall not"@),
        ("they'll"@, "they will"@),
        ("they'd"@, "they would"@),
        ("they've"@, "they have"@),
        ("they're"@, "they are"@),
        ("that's"@, "that is"@),
        ("there's"@, "there is"@),
        ("here's"@, "here is"@),
        ("what's"@, "what is"@),
        ("let's"@, "let us"@),
        ("you'll"@, "you will"@),
        ("you'd"@, "you would"@),
        ("you've"@, "you have"@),
        ("you're"@, "you are"@),
        ("we'll"@, "we will"@),
        ("we'd"@, "we would"@),
        ("we've"@, "we have"@),
        ("we're"@, "we are"@),
        ("i'll"@, "I will"@),
        ("i'd"@, "I would"@),
        ("i've"@, "I have"@),
        ("i'm"@, "I am"@),
        ("he'll"@, "he will"@),
        ("he'd"@, "he would"@),
        ("he's"@, "he is"@),
        ("she'll"@, "she will"@),
        ("she'd"@, "she would"@),
        ("she's"@, "she is"@),
        ("it's"@, "it is"@)
    ]
}

/// The text after replacing the first `n` contractions of `table` in order.
pub open spec fn expanded(s: Seq<char>, table: Seq<(Seq<char>, Seq<char>)>, n: nat) -> Seq<char>
    decreases n,
{
    if n == 0 {
        s
    } else {
        replace_all(expanded(s, table, (n - 1) as nat), table[n - 1].0, table[n - 1].1)
    }
}

/// The contraction table as string pairs.
fn contractions() -> (t: Vec<(&'static str, &'static str)>)
    ensures
        t@.map_values(|p: (&str, &str)| (p.0@, p.1@)) == contraction_table(),
{
    let t = vec![
        ("wouldn't", "would not"),
        ("couldn't", "could not"),
        ("shouldn't", "should not"),
        ("mustn't", "must not"),
        ("needn't", "need not"),
        ("hasn't", "has not"),
        ("haven't", "have not"),
        ("hadn't", "had not"),
        ("wasn't", "was not"),
        ("weren't", "were not"),
        ("isn't", "is not"),
        ("aren't", "are not"),
        ("don't", "do not"),
        ("doesn't", "does not"),
        ("didn't", "did not"),
        ("won't", "will not"),
        ("can't", "cannot"),
        ("shan't", "shall not"),
        ("they'll", "they will"),
        ("they'd", "they would"),
        ("they've", "they have"),
        ("they're", "they are"),
        ("that's", "that is"),
        ("there's", "there is"),
        ("here's", "here is"),
        ("what's", "what is"),
        ("let's", "let us"),
        ("you'll", "you will"),
        ("you'd", "you would"),
        ("you've", "you have"),
        ("you're", "you are"),
        ("we'll", "we will"),
        ("we'd", "we would"),
        ("we've", "we have"),
        ("we're", "we are"),
        ("i'll", "I will"),
        ("i'd", "I would"),
        ("i've", "I have"),
        ("i'm", "I am"),
        ("he'll", "he will"),
        ("he'd", "he would"),
        ("he's", "he is"),
        ("she'll", "she will"),
        ("she'd", "she would"),
        ("she's", "she is"),
        ("it's", "it is")
    ];
    assert(t@.map_values(|p: (&str, &str)| (p.0@, p.1@)) =~= contraction_table());
    t
}

/// Expand common English contractions (e.g., "don't" → "do not").
pub struct ExpandCommonEnglishContractions;

impl Transform for ExpandCommonEnglishContractions {
    open spec fn transformed(&self, input: Seq<char>) -> Seq<char> {
        expanded(input, contraction_table(), contraction_table().len())
    }

    fn transform(&self, input: &str) -> (r: String) {
        let table = contractions();
        let ghost spec_table = contraction_table();
        let mut result = chars_of(input);
        let mut k: usize = 0;
        while k < table.len()
            invariant
                k <= table@.len(),
                table@.map_values(|p: (&str, &str)| (p.0@, p.1@)) == spec_table,
                spec_table == contraction_table(),
                result@ == expanded(input@, spec_table, k as nat),
            decreases table@.len() - k,
        {
            let (contraction, expansion) = table[k];
            let pat = chars_of(contraction);
            let rep = chars_of(expansion);
            proof {
                assert(spec_table[k as int] == (contraction@, expansion@));
            }
            result = replace_chars(&result, &pat, &rep);
            k += 1;
        }
        string_of_chars(&result, 0, result.len())
    }
}

/// The Chinese script a text is converted to.
#[derive(Debug, Clone, Copy, PartialEq, Eq, Structural)]
pub enum ChineseScript {
    /// Simplified Chinese (mainland China usage).
    Simplified,
    /// Traditional Chinese.
    Traditional,
}

/// The text that `zhconv` converts `text` to for the script `target`.
pub uninterp spec fn zhconv_converted(text: Seq<char>, target: ChineseScript) -> Seq<char>;

/// `zhconv::zhconv(text, variant)`, with `Variant::ZhCN` for Simplified and
/// `Variant::ZhHant` for Traditional: the text converted with zhconv's
/// built-in rule sets; the conversion itself is named, not stated.
#[verifier::external_body]
fn zhconv_convert(text: &str, target: ChineseScript) -> (r: String)
    ensures
        r@ == zhconv_converted(text@, target),
{
    match target {
        ChineseScript::Simplified => zhconv::zhconv(text, zhconv::Variant::ZhCN),
        ChineseScript::Traditional => zhconv::zhconv(text, zhconv::Variant::ZhHant),
    }
}

/// Convert Traditional Chinese text to Simplified Chinese.
pub struct ToSimplified;

impl Transform for ToSimplified {
    open spec fn transformed(&self, input: Seq<char>) -> Seq<char> {
        zhconv_converted(input, ChineseScript::Simplified)
    }

    fn transform(&self, input: &str) -> (r: String) {
        zhconv_convert(input, ChineseScript::Simplified)
    }
}

/// Convert Simplified Chinese text to Traditional Chinese.
pub struct ToTraditional;

impl Transform for ToTraditional {
    open spec fn transformed(&self, input: Seq<char>) -> Seq<char> {
        zhconv_converted(input, ChineseScript::Traditional)
    }

    fn transform(&self, input: &str) -> (r: String) {
        zhconv_convert(input, ChineseScript::Traditional)
    }
}

/// Segment Chinese text into words with jieba and separate them by spaces,
/// so that word-level metrics can be computed on it.
pub struct ChineseWordSegment {
    tokenizer: ChineseTokenizer,
}

impl ChineseWordSegment {
    /// Create a segmenter with jieba's default dictionary.
    pub fn new() -> Self {
        Self { tokenizer: ChineseTokenizer::new() }
    }
}

impl Transform for ChineseWordSegment {
    open spec fn transformed(&self, input: Seq<char>) -> Seq<char> {
        join_with(jieba_segments(input), " "@)
    }

    fn transform(&self, input: &str) -> (r: String) {
        let words = self.tokenizer.cut(input);
        join(&words, " ")
    }
}

} // verus!

verus! {

/// How many times `c` occurs in `s`.
pub open spec fn char_count(s: Seq<char>, c: char) -> nat
    decreases s.len(),
{
    if s.len() == 0 {
        0
    } else {
        char_count(s.drop_last(), c) + if s.last() == c {
            1nat
        } else {
            0nat
        }
    }
}

/// Removing punctuation removes every character that is neither
/// alphanumeric nor whitespace and makes no Unicode word on its own, each
/// time it occurs, and keeps every other character as often as it occurs.
pub proof fn lemma_punctuation_removed(s: Seq<char>, c: char)
    ensures
        !is_alphanumeric_char(c) && !is_white_space(c) && unicode_words_of(seq![c]).len() == 0
            ==> !without_punctuation(s).contains(c) && char_count(without_punctuation(s), c) == 0,
        !(!is_alphanumeric_char(c) && !is_white_space(c) && unicode_words_of(seq![c]).len() == 0)
            ==> char_count(without_punctuation(s), c) == char_count(s, c),
    decreases s.len(),
{
    if s.len() > 0 {
        let d = s.drop_last();
        lemma_punctuation_removed(d, c);
        let r = without_punctuation(d);
        if !is_punctuation(s.last()) {
            assert(without_punctuation(s) == r.push(s.last()));
            assert(r.push(s.last()).drop_last() =~= r);
            if is_punctuation(c) {
                assert forall|k: int| 0 <= k < r.push(s.last()).len() implies r.push(s.last())[k] != c by {
                    if k < r.len() {
                        assert(r.push(s.last())[k] == r[k]);
                    }
                }
            }
        } else {
            assert(without_punctuation(s) == r);
        }
    }
}

/// Whether `pat` occurs in `s` starting at position `i`.
pub open spec fn occurs_in_at(s: Seq<char>, pat: Seq<char>, i: int) -> bool {
    0 <= i && i + pat.len() <= s.len() && s.subrange(i, i + pat.len()) == pat
}

/// Replacing a non-empty pattern that does not occur leaves the text as it is.
pub proof fn lemma_replace_absent(s: Seq<char>, pat: Seq<char>, rep: Seq<char>)
    requires
        pat.len() > 0,
        forall|i: int| !occurs_in_at(s, pat, i),
    ensures
        replace_all(s, pat, rep) == s,
    decreases s.len(),
{
    if s.len() > 0 {
        assert(!occurs_in_at(s, pat, 0));
        if s.len() >= pat.len() {
            assert(s.take(pat.len() as int) =~= s.subrange(0, pat.len() as int));
        }
        let t = s.drop_first();
        assert forall|i: int| !occurs_in_at(t, pat, i) by {
            if occurs_in_at(t, pat, i) {
                assert(s.subrange(i + 1, i + 1 + pat.len()) =~= t.subrange(i, i + pat.len()));
                assert(occurs_in_at(s, pat, i + 1));
            }
        }
        lemma_replace_absent(t, pat, rep);
        assert(seq![s[0]] + t =~= s);
    }
}

/// Replacement works from the left: when the first occurrence of a
/// non-empty pattern in `x + pat + y` is the one after `x`, the result is
/// `x`, then the replacement, then `y` with its own occurrences replaced.
pub proof fn lemma_replace_first(x: Seq<char>, pat: Seq<char>, y: Seq<char>, rep: Seq<char>)
    requires
        pat.len() > 0,
        forall|i: int| 0 <= i < x.len() ==> !occurs_in_at(x + pat + y, pat, i),
    ensures
        replace_all(x + pat + y, pat, rep) == x + rep + replace_all(y, pat, rep),
    decreases x.len(),
{
    let s = x + pat + y;
    if x.len() == 0 {
        assert(x + pat + y =~= pat + y);
        assert(s.take(pat.len() as int) =~= pat);
        assert(s.skip(pat.len() as int) =~= y);
        assert(x + rep + replace_all(y, pat, rep) =~= rep + replace_all(y, pat, rep));
    } else {
        assert(!occurs_in_at(s, pat, 0));
        assert(s.take(pat.len() as int) =~= s.subrange(0, pat.len() as int));
        let x1 = x.drop_first();
        assert(s.drop_first() =~= x1 + pat + y);
        assert forall|i: int| 0 <= i < x1.len() implies !occurs_in_at(x1 + pat + y, pat, i) by {
            assert(!occurs_in_at(s, pat, i + 1));
            assert(s.subrange(i + 1, i + 1 + pat.len()) =~= (x1 + pat + y).subrange(i, i + pat.len()));
        }
        lemma_replace_first(x1, pat, y, rep);
        assert(s[0] == x[0]);
        assert(seq![x[0]] + (x1 + rep + replace_all(y, pat, rep)) =~= x + rep + replace_all(y, pat, rep));
    }
}

} // verus!
