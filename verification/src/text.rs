use vstd::prelude::*;

verus! {

/// The character content of each token in a sequence.
pub open spec fn token_views<S: View<V = Seq<char>>>(s: Seq<S>) -> Seq<Seq<char>> {
    s.map_values(|t: S| t@)
}

/// Text tokens that can be compared by their character content.
pub trait Token: View<V = Seq<char>> {
    /// Whether two tokens hold the same characters.
    fn same_text(&self, other: &Self) -> (r: bool)
        ensures
            r == (self@ == other@),
    ;

    /// An owned string with the same characters.
    fn to_text(&self) -> (s: String)
        ensures
            s@ == self@,
    ;
}

/// `str` equality (`<str as PartialEq>::eq`): true exactly when both
/// slices hold the same characters.
#[verifier::external_body]
pub(crate) fn str_eq(a: &str, b: &str) -> (r: bool)
    ensures
        r == (a@ == b@),
{
    a == b
}

impl<'a> Token for &'a str {
    fn same_text(&self, other: &Self) -> (r: bool) {
        str_eq(*self, *other)
    }

    fn to_text(&self) -> (s: String) {
        (*self).to_owned()
    }
}

impl Token for String {
    fn same_text(&self, other: &Self) -> (r: bool) {
        *self == *other
    }

    fn to_text(&self) -> (s: String) {
        self.clone()
    }
}

} // verus!

verus! {

/// The characters of `s`, in order.
pub fn chars_of(s: &str) -> (v: Vec<char>)
    ensures
        v@ == s@,
{
    let mut v: Vec<char> = Vec::new();
    for c in it: s.chars()
        invariant
            v@ == it.seq().take(it.index() as int),
            it.seq() == s@,
    {
        v.push(c);
    }
    v
}

} // verus!

verus! {

/// Whether `c` has the Unicode `White_Space` property, as `char::is_whitespace` defines it.
pub open spec fn is_white_space(c: char) -> bool {
    ||| ('\u{9}' <= c && c <= '\u{d}')
    ||| c == ' '
    ||| c == '\u{85}'
    ||| c == '\u{a0}'
    ||| c == '\u{1680}'
    ||| ('\u{2000}' <= c && c <= '\u{200a}')
    ||| c == '\u{2028}'
    ||| c == '\u{2029}'
    ||| c == '\u{202f}'
    ||| c == '\u{205f}'
    ||| c == '\u{3000}'
}

/// Whether `c` is whitespace (the Unicode `White_Space` property).
pub fn is_whitespace(c: char) -> (r: bool)
    ensures
        r == is_white_space(c),
{
    ('\u{9}' <= c && c <= '\u{d}') || c == ' ' || c == '\u{85}' || c == '\u{a0}' || c == '\u{1680}'
        || ('\u{2000}' <= c && c <= '\u{200a}') || c == '\u{2028}' || c == '\u{2029}' || c
        == '\u{202f}' || c == '\u{205f}' || c == '\u{3000}'
}

/// `String::push`: appends one character.
#[verifier::external_body]
pub(crate) fn push_char(s: &mut String, c: char)
    ensures
        final(s)@ == old(s)@.push(c),
{
    s.push(c);
}

/// A string holding the characters `chars[from..to]`.
pub fn string_of_chars(chars: &[char], from: usize, to: usize) -> (s: String)
    requires
        from <= to <= chars@.len(),
    ensures
        s@ == chars@.subrange(from as int, to as int),
{
    let mut s = String::new();
    let mut k = from;
    while k < to
        invariant
            from <= k <= to,
            to <= chars@.len(),
            s@ == chars@.subrange(from as int, k as int),
        decreases to - k,
    {
        push_char(&mut s, chars[k]);
        proof {
            assert(chars@.subrange(from as int, k + 1) =~= chars@.subrange(from as int, k as int).push(
                chars@[k as int],
            ));
        }
        k += 1;
    }
    s
}

/// The whitespace-separated words of `s`: its maximal runs of
/// non-whitespace characters, in order.
pub open spec fn split_ws(s: Seq<char>) -> Seq<Seq<char>>
    decreases s.len(),
{
    if s.len() == 0 {
        seq![]
    } else {
        let prev = split_ws(s.drop_last());
        let c = s.last();
        if is_white_space(c) {
            prev
        } else if s.len() >= 2 && !is_white_space(s[s.len() - 2]) {
            prev.drop_last().push(prev.last().push(c))
        } else {
            prev.push(seq![c])
        }
    }
}

/// A text ending in a non-whitespace character has at least one word.
pub proof fn lemma_split_ws_nonempty(s: Seq<char>)
    requires
        s.len() > 0,
        !is_white_space(s.last()),
    ensures
        split_ws(s).len() > 0,
{
}

/// Split `text` on whitespace, dropping empty pieces (like `str::split_whitespace`).
pub fn split_whitespace(text: &str) -> (words: Vec<String>)
    ensures
        token_views(words@) == split_ws(text@),
{
    let chars = chars_of(text);
    let n = chars.len();
    let mut words: Vec<String> = Vec::new();
    let mut start: usize = 0;
    let mut in_word = false;
    let mut k: usize = 0;
    while k < n
        invariant
            n == chars@.len(),
            chars@ == text@,
            k <= n,
            start <= k,
            in_word ==> start < k && !is_white_space(chars@[k - 1]),
            !in_word ==> (k == 0 || is_white_space(chars@[k - 1])),
            in_word ==> forall|t: int| start <= t < k ==> !is_white_space(#[trigger] chars@[t]),
            in_word ==> (start == 0 || is_white_space(chars@[start - 1])),
            !in_word ==> token_views(words@) == split_ws(chars@.take(k as int)),
            in_word ==> token_views(words@).push(chars@.subrange(start as int, k as int))
                == split_ws(chars@.take(k as int)),
        decreases n - k,
    {
        let c = chars[k];
        let ws = is_whitespace(c);
        proof {
            let p = chars@.take(k + 1);
            assert(p.drop_last() =~= chars@.take(k as int));
            assert(p.last() == c);
            if k > 0 {
                assert(p[p.len() - 2] == chars@[k - 1]);
            }
        }
        if ws {
            if in_word {
                let w = string_of_chars(&chars, start, k);
                let ghost prev = words@;
                words.push(w);
                proof {
                    assert(token_views(words@) =~= token_views(prev).push(w@));
                }
                in_word = false;
            }
        } else {
            if !in_word {
                start = k;
                in_word = true;
                proof {
                    assert(chars@.subrange(start as int, k + 1) =~= seq![c]);
                }
            } else {
                proof {
                    let prev = token_views(words@).push(chars@.subrange(start as int, k as int));
                    assert(prev.drop_last() =~= token_views(words@));
                    assert(chars@.subrange(start as int, k + 1) =~= chars@.subrange(
                        start as int,
                        k as int,
                    ).push(c));
                }
            }
        }
        k += 1;
    }
    if in_word {
        let w = string_of_chars(&chars, start, n);
        let ghost prev = words@;
        words.push(w);
        proof {
            assert(token_views(words@) =~= token_views(prev).push(w@));
        }
    }
    assert(chars@.take(n as int) =~= chars@);
    words
}

} // verus!

verus! {

/// The words of `words` joined with `sep` between consecutive ones.
pub open spec fn join_with(words: Seq<Seq<char>>, sep: Seq<char>) -> Seq<char>
    decreases words.len(),
{
    if words.len() == 0 {
        seq![]
    } else if words.len() == 1 {
        words[0]
    } else {
        join_with(words.drop_last(), sep) + sep + words.last()
    }
}

/// Join `words` with `sep` between consecutive ones (like `[String]::join`).
pub fn join(words: &Vec<String>, sep: &str) -> (s: String)
    ensures
        s@ == join_with(token_views(words@), sep@),
{
    let ghost w = token_views(words@);
    let mut s = String::new();
    let mut k: usize = 0;
    while k < words.len()
        invariant
            k <= words@.len(),
            w == token_views(words@),
            s@ == join_with(w.take(k as int), sep@),
        decreases words@.len() - k,
    {
        proof {
            assert(w.take(k + 1).drop_last() =~= w.take(k as int));
        }
        if k > 0 {
            s.append(sep);
        }
        s.append(words[k].as_str());
        proof {
            if k == 0 {
                assert(s@ =~= w.take(1)[0]);
            }
        }
        k += 1;
    }
    assert(w.take(words@.len() as int) =~= w);
    s
}

} // verus!

verus! {

/// A text has no more words than characters.
pub proof fn lemma_split_ws_len(s: Seq<char>)
    ensures
        split_ws(s).len() <= s.len(),
    decreases s.len(),
{
    if s.len() > 0 {
        lemma_split_ws_len(s.drop_last());
        if !is_white_space(s.last()) && s.len() >= 2 && !is_white_space(s[s.len() - 2]) {
            lemma_split_ws_nonempty(s.drop_last());
        }
    }
}

/// Splitting a text into non-empty pieces yields no more pieces than characters.
pub proof fn lemma_pieces_len(pieces: Seq<Seq<char>>)
    requires
        forall|k: int| 0 <= k < pieces.len() ==> #[trigger] pieces[k].len() > 0,
    ensures
        pieces.len() <= pieces.flatten().len(),
    decreases pieces.len(),
{
    if pieces.len() > 0 {
        assert forall|k: int| 0 <= k < pieces.drop_first().len() implies #[trigger] pieces.drop_first()[k].len() > 0 by {
            assert(pieces.drop_first()[k] == pieces[k + 1]);
        }
        lemma_pieces_len(pieces.drop_first());
    }
}

} // verus!

verus! {

/// The number of places where a word begins in `s`: a non-whitespace
/// character that is the first of `s` or follows a whitespace character.
pub open spec fn word_starts(s: Seq<char>) -> nat
    decreases s.len(),
{
    if s.len() == 0 {
        0
    } else {
        let k = s.len() - 1;
        word_starts(s.drop_last()) + if !is_white_space(s[k]) && (k == 0 || is_white_space(
            s[k - 1],
        )) {
            1nat
        } else {
            0nat
        }
    }
}

/// The words of a text are its maximal runs of non-whitespace characters:
/// each word is non-empty and holds no whitespace character, the words put
/// end to end give the text without its whitespace, and there is one word
/// for each place where a run of non-whitespace characters begins.
pub proof fn lemma_split_ws_words(s: Seq<char>)
    ensures
        forall|k: int| 0 <= k < split_ws(s).len() ==> #[trigger] split_ws(s)[k].len() > 0,
        forall|k: int, t: int|
            0 <= k < split_ws(s).len() && 0 <= t < split_ws(s)[k].len() ==> !is_white_space(
                #[trigger] split_ws(s)[k][t],
            ),
        split_ws(s).flatten() == s.filter(|c: char| !is_white_space(c)),
        split_ws(s).len() == word_starts(s),
    decreases s.len(),
{
    reveal_with_fuel(Seq::filter, 1);
    let w = split_ws(s);
    w.lemma_flatten_and_flatten_alt_are_equivalent();
    if s.len() > 0 {
        let d = s.drop_last();
        let p = split_ws(d);
        let c = s.last();
        lemma_split_ws_words(d);
        p.lemma_flatten_and_flatten_alt_are_equivalent();
        assert(s.filter(|c: char| !is_white_space(c)) == if !is_white_space(c) {
            d.filter(|c: char| !is_white_space(c)).push(c)
        } else {
            d.filter(|c: char| !is_white_space(c))
        });
        if is_white_space(c) {
            assert(w == p);
        } else if s.len() >= 2 && !is_white_space(s[s.len() - 2]) {
            assert(d.last() == s[s.len() - 2]);
            lemma_split_ws_nonempty(d);
            let q = p.last().push(c);
            assert(w == p.drop_last().push(q));
            assert(w.drop_last() =~= p.drop_last());
            assert(w.last() == q);
            assert(p.flatten_alt() == p.drop_last().flatten_alt() + p.last());
            assert(w.flatten_alt() == w.drop_last().flatten_alt() + w.last());
            assert(w.flatten_alt() =~= p.flatten_alt().push(c));
            assert forall|k: int| 0 <= k < w.len() implies #[trigger] w[k].len() > 0 by {
                if k < w.len() - 1 {
                    assert(w[k] == p[k]);
                }
            }
            assert forall|k: int, t: int| 0 <= k < w.len() && 0 <= t < w[k].len() implies !is_white_space(
                #[trigger] w[k][t],
            ) by {
                if k < w.len() - 1 {
                    assert(w[k] == p[k]);
                } else if t < q.len() - 1 {
                    assert(w[k][t] == p[p.len() - 1][t]);
                }
            }
        } else {
            assert(w == p.push(seq![c]));
            assert(w.drop_last() =~= p);
            assert(w.flatten_alt() == w.drop_last().flatten_alt() + w.last());
            assert(w.flatten_alt() =~= p.flatten_alt().push(c));
            assert forall|k: int| 0 <= k < w.len() implies #[trigger] w[k].len() > 0 by {
                if k < w.len() - 1 {
                    assert(w[k] == p[k]);
                }
            }
            assert forall|k: int, t: int| 0 <= k < w.len() && 0 <= t < w[k].len() implies !is_white_space(
                #[trigger] w[k][t],
            ) by {
                if k < w.len() - 1 {
                    assert(w[k] == p[k]);
                }
            }
        }
    } else {
        assert(w.flatten_alt() =~= Seq::<char>::empty());
    }
}

} // verus!
