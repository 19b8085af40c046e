use vstd::prelude::*;
use crate::text::{chars_of, string_of};

verus! {

/// Whether a character belongs to the Unicode letter class `\p{L}`.
pub uninterp spec fn letter(c: char) -> bool;

/// The lowercase form of a string, by Unicode's lowercase mapping.
pub uninterp spec fn lower_of(s: Seq<char>) -> Seq<char>;

/// Relies on `regex::Regex::is_match` with the class `\p{L}`: true exactly
/// when the character is a Unicode letter.
#[verifier::external_body]
fn is_letter(c: char) -> (r: bool)
    ensures
        r == letter(c),
{
    regex::Regex::new(r"\p{L}").unwrap().is_match(&c.to_string())
}

/// Relies on `str::to_lowercase`: the result depends on the characters
/// alone, and the empty string stays empty.
#[verifier::external_body]
fn lowercase(s: &str) -> (r: String)
    ensures
        r@ == lower_of(s@),
        s@.len() == 0 ==> r@.len() == 0,
{
    s.to_lowercase()
}

/// The pending run as a list of at most one word.
pub open spec fn flush(run: Seq<char>) -> Seq<Seq<char>> {
    if run.len() > 0 {
        seq![run]
    } else {
        seq![]
    }
}

/// The words of `s`, when the letters in `run` directly precede it.
pub open spec fn scan(s: Seq<char>, run: Seq<char>) -> Seq<Seq<char>>
    decreases s.len(),
{
    if s.len() == 0 {
        flush(run)
    } else if letter(s[0]) {
        scan(s.drop_first(), run.push(s[0]))
    } else {
        flush(run) + scan(s.drop_first(), seq![])
    }
}

/// The maximal runs of letters of `s`, in order.
pub open spec fn words_of(s: Seq<char>) -> Seq<Seq<char>> {
    scan(s, seq![])
}

/// The tokens of a text: the maximal letter runs of its lowercase form.
pub open spec fn tokens_of(s: Seq<char>) -> Seq<Seq<char>> {
    words_of(lower_of(s))
}

/// The views of a list of strings.
pub open spec fn views(v: Seq<String>) -> Seq<Seq<char>> {
    v.map_values(|w: String| w@)
}

/// Splits text that is already lowercase into its maximal runs of letters.
pub fn split_words(s: &str) -> (r: Vec<String>)
    ensures
        views(r@) == words_of(s@),
{
    let cs = chars_of(s);
    let mut out: Vec<String> = Vec::new();
    let mut run: Vec<char> = Vec::new();
    let mut i: usize = 0;
    assert(cs@.subrange(0, cs@.len() as int) == cs@);
    while i < cs.len()
        invariant
            i <= cs@.len(),
            cs@ == s@,
            views(out@) + scan(cs@.subrange(i as int, cs@.len() as int), run@) == words_of(s@),
        decreases cs@.len() - i,
    {
        let c = cs[i];
        let ghost rest = cs@.subrange(i as int, cs@.len() as int);
        let ghost next = cs@.subrange(i + 1, cs@.len() as int);
        assert(rest.drop_first() == next);
        if is_letter(c) {
            run.push(c);
        } else {
            let ghost before = views(out@);
            if run.len() > 0 {
                let w = string_of(run.as_slice());
                out.push(w);
                assert(views(out@) == before + seq![run@]);
            } else {
                assert(before + flush(run@) == before);
            }
            proof {
                vstd::seq_lib::lemma_concat_associative(before, flush(run@), scan(next, seq![]));
            }
            run = Vec::new();
            assert(run@ == Seq::<char>::empty());
        }
        i = i + 1;
    }
    if run.len() > 0 {
        let w = string_of(run.as_slice());
        let ghost before = views(out@);
        out.push(w);
        assert(views(out@) == before + seq![run@]);
    } else {
        assert(views(out@) + flush(run@) == views(out@));
    }
    out
}

/// Splits a text into its tokens: it is lowercased, then cut into maximal
/// runs of letters. Digits, punctuation and spaces belong to no token.
pub fn tokenize(text: &str) -> (r: Vec<String>)
    ensures
        views(r@) == tokens_of(text@),
        text@.len() == 0 ==> r@.len() == 0,
{
    let lowered = lowercase(text);
    let r = split_words(lowered.as_str());
    assert(views(r@).len() == r@.len());
    proof {
        if text@.len() == 0 {
            assert(lowered@ == Seq::<char>::empty());
            assert(words_of(lowered@) == Seq::<Seq<char>>::empty());
        }
    }
    r
}

proof fn lemma_scan_split(a: Seq<char>, x: Seq<char>, run: Seq<char>)
    requires
        x.len() > 0,
        !letter(x[0]),
    ensures
        scan(a + x, run) == scan(a, run) + scan(x.drop_first(), seq![]),
    decreases a.len(),
{
    if a.len() == 0 {
        assert(a + x == x);
    } else {
        assert((a + x).drop_first() == a.drop_first() + x);
        assert((a + x)[0] == a[0]);
        if letter(a[0]) {
            lemma_scan_split(a.drop_first(), x, run.push(a[0]));
        } else {
            lemma_scan_split(a.drop_first(), x, seq![]);
            vstd::seq_lib::lemma_concat_associative(
                flush(run),
                scan(a.drop_first(), seq![]),
                scan(x.drop_first(), seq![]),
            );
        }
    }
}

/// Joining two texts with a separator that is no letter (a space, say)
/// joins their words: the words of `a + sep + b` are the words of `a`
/// followed by the words of `b`.
pub proof fn lemma_words_of_joined(a: Seq<char>, sep: char, b: Seq<char>)
    requires
        !letter(sep),
    ensures
        words_of(a + seq![sep] + b) == words_of(a) + words_of(b),
{
    let x = seq![sep] + b;
    assert(a + seq![sep] + b == a + x);
    assert(x.drop_first() == b);
    lemma_scan_split(a, x, seq![]);
}

} // verus!
