use vstd::prelude::*;
use crate::text::{chars_of, string_of};

verus! {

pub open spec fn is_bracket(c: char) -> bool {
    c == '[' || c == ']'
}

/// The end of the run of non-bracket characters of `s` that starts at `i`.
pub open spec fn run_end(s: Seq<char>, i: int) -> int
    decreases s.len() - i,
{
    if i < 0 || i >= s.len() || is_bracket(s[i]) {
        i
    } else {
        run_end(s, i + 1)
    }
}

/// Where the destination of a link opened at `i` ends.
pub open spec fn dest_end(s: Seq<char>, i: int) -> int {
    run_end(s, i + 2)
}

/// Where the label of a link opened at `i` starts.
pub open spec fn label_start(s: Seq<char>, i: int) -> int {
    dest_end(s, i) + 2
}

/// Where the label of a link opened at `i` ends.
pub open spec fn label_end(s: Seq<char>, i: int) -> int {
    run_end(s, label_start(s, i))
}

/// Whether `s` holds a link `[[destination][label]]` that starts at `i`,
/// with a destination and a label that are non-empty and hold no bracket.
pub open spec fn is_link_at(s: Seq<char>, i: int) -> bool {
    &&& 0 <= i
    &&& i + 1 < s.len()
    &&& s[i] == '['
    &&& s[i + 1] == '['
    &&& dest_end(s, i) > i + 2
    &&& dest_end(s, i) + 1 < s.len()
    &&& s[dest_end(s, i)] == ']'
    &&& s[dest_end(s, i) + 1] == '['
    &&& label_end(s, i) > label_start(s, i)
    &&& label_end(s, i) + 1 < s.len()
    &&& s[label_end(s, i)] == ']'
    &&& s[label_end(s, i) + 1] == ']'
}

/// `s` from position `i` on, with each link replaced by its label, scanning
/// left to right without overlap.
pub open spec fn labels_from(s: Seq<char>, i: int) -> Seq<char>
    decreases s.len() - i,
{
    if i < 0 || i >= s.len() {
        seq![]
    } else if is_link_at(s, i) {
        s.subrange(label_start(s, i), label_end(s, i)) + labels_from(s, label_end(s, i) + 2)
    } else {
        seq![s[i]] + labels_from(s, i + 1)
    }
}

/// `s` with each link replaced by its label.
pub open spec fn links_to_labels(s: Seq<char>) -> Seq<char> {
    labels_from(s, 0)
}

/// Whether `s` holds no link.
pub open spec fn has_no_links(s: Seq<char>) -> bool {
    forall|i: int| 0 <= i < s.len() ==> !is_link_at(s, i)
}

proof fn lemma_run_end_bounds(s: Seq<char>, i: int)
    requires
        0 <= i <= s.len(),
    ensures
        i <= run_end(s, i) <= s.len(),
        forall|k: int| i <= k < run_end(s, i) ==> !is_bracket(s[k]),
        run_end(s, i) < s.len() ==> is_bracket(s[run_end(s, i)]),
    decreases s.len() - i,
{
    if i < s.len() && !is_bracket(s[i]) {
        lemma_run_end_bounds(s, i + 1);
    }
}

fn find_run_end(cs: &Vec<char>, i: usize) -> (r: usize)
    requires
        i <= cs@.len(),
    ensures
        r == run_end(cs@, i as int),
{
    let mut k: usize = i;
    while k < cs.len() && cs[k] != '[' && cs[k] != ']'
        invariant
            i <= k <= cs@.len(),
            run_end(cs@, k as int) == run_end(cs@, i as int),
        decreases cs@.len() - k,
    {
        k = k + 1;
    }
    k
}

/// Whether a link starts at `i`, and if so where its label starts and ends.
fn link_at(cs: &Vec<char>, i: usize) -> (r: Option<(usize, usize)>)
    requires
        i < cs@.len(),
    ensures
        r is Some <==> is_link_at(cs@, i as int),
        r matches Some((a, b)) ==> a == label_start(cs@, i as int) && b == label_end(cs@, i as int),
{
    let n = cs.len();
    if i + 1 >= n || cs[i] != '[' || cs[i + 1] != '[' {
        return None;
    }
    let d = find_run_end(cs, i + 2);
    proof {
        lemma_run_end_bounds(cs@, i + 2);
    }
    if d <= i + 2 || d >= n - 1 || cs[d] != ']' || cs[d + 1] != '[' {
        return None;
    }
    let a = d + 2;
    let b = find_run_end(cs, a);
    proof {
        lemma_run_end_bounds(cs@, a as int);
    }
    if b <= a || b >= n - 1 || cs[b] != ']' || cs[b + 1] != ']' {
        return None;
    }
    Some((a, b))
}

/// Replaces every link `[[destination][label]]` of a text by its label.
/// Links are found left to right over the input text and do not overlap;
/// all other text is kept as it is.
pub fn strip_org_links(text: &str) -> (r: String)
    ensures
        r@ == links_to_labels(text@),
{
    let cs = chars_of(text);
    let mut out: Vec<char> = Vec::new();
    let mut i: usize = 0;
    while i < cs.len()
        invariant
            i <= cs@.len(),
            cs@ == text@,
            out@ + labels_from(cs@, i as int) == links_to_labels(text@),
        decreases cs@.len() - i,
    {
        let ghost before = out@;
        match link_at(&cs, i) {
            Some((a, b)) => {
                let mut k: usize = a;
                while k < b
                    invariant
                        a <= k <= b,
                        b + 2 <= cs@.len(),
                        out@ == before + cs@.subrange(a as int, k as int),
                    decreases b - k,
                {
                    out.push(cs[k]);
                    assert(cs@.subrange(a as int, k + 1) == cs@.subrange(a as int, k as int).push(cs@[k as int]));
                    k = k + 1;
                }
                proof {
                    vstd::seq_lib::lemma_concat_associative(
                        before,
                        cs@.subrange(a as int, b as int),
                        labels_from(cs@, b + 2),
                    );
                }
                i = b + 2;
            },
            None => {
                out.push(cs[i]);
                proof {
                    vstd::seq_lib::lemma_concat_associative(
                        before,
                        seq![cs@[i as int]],
                        labels_from(cs@, i + 1),
                    );
                }
                i = i + 1;
            },
        }
    }
    string_of(out.as_slice())
}

proof fn lemma_labels_from_plain(s: Seq<char>, i: int)
    requires
        0 <= i <= s.len(),
        has_no_links(s),
    ensures
        labels_from(s, i) == s.subrange(i, s.len() as int),
    decreases s.len() - i,
{
    if i < s.len() {
        lemma_labels_from_plain(s, i + 1);
        assert(seq![s[i]] + s.subrange(i + 1, s.len() as int) == s.subrange(i, s.len() as int));
    }
}

/// Text that holds no link is left unchanged, so rewriting it again
/// changes nothing either.
pub proof fn lemma_plain_text_unchanged(s: Seq<char>)
    requires
        has_no_links(s),
    ensures
        links_to_labels(s) == s,
        links_to_labels(links_to_labels(s)) == links_to_labels(s),
{
    lemma_labels_from_plain(s, 0);
    assert(s.subrange(0, s.len() as int) == s);
}

} // verus!
