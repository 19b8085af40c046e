use vstd::prelude::*;
use crate::text::{chars_of, string_of};
use crate::links::{links_to_labels, strip_org_links};

verus! {

/// Unicode's `White_Space` property.
pub open spec fn white_space(c: char) -> bool {
    let n = c as u32;
    (9 <= n <= 13) || n == 32 || n == 0x85 || n == 0xa0 || n == 0x1680 || (0x2000 <= n
        <= 0x200a) || n == 0x2028 || n == 0x2029 || n == 0x202f || n == 0x205f || n == 0x3000
}

pub open spec fn trim_start(s: Seq<char>) -> Seq<char>
    decreases s.len(),
{
    if s.len() > 0 && white_space(s[0]) {
        trim_start(s.drop_first())
    } else {
        s
    }
}

pub open spec fn trim_end(s: Seq<char>) -> Seq<char>
    decreases s.len(),
{
    if s.len() > 0 && white_space(s.last()) {
        trim_end(s.drop_last())
    } else {
        s
    }
}

/// `s` without leading and trailing white space.
pub open spec fn trim(s: Seq<char>) -> Seq<char> {
    trim_end(trim_start(s))
}

/// The title directive, lowercase.
pub open spec fn directive() -> Seq<char> {
    seq!['#', '+', 't', 'i', 't', 'l', 'e', ':']
}

/// The title directive, uppercase.
pub open spec fn directive_upper() -> Seq<char> {
    seq!['#', '+', 'T', 'I', 'T', 'L', 'E', ':']
}

/// Whether `s` starts with the title directive, in any case.
pub open spec fn starts_with_directive(s: Seq<char>) -> bool {
    s.len() >= 8 && forall|k: int|
        0 <= k < 8 ==> s[k] == directive()[k] || s[k] == directive_upper()[k]
}

/// The title that a line declares: after optional white space, the title
/// directive in any case, and then the rest of the line, trimmed.
pub open spec fn line_title(line: Seq<char>) -> Option<Seq<char>> {
    let t = trim_start(line);
    if starts_with_directive(t) {
        Some(trim(t.subrange(8, t.len() as int)))
    } else {
        None
    }
}

/// Where the line of `s` that starts at `i` ends.
pub open spec fn line_end(s: Seq<char>, i: int) -> int
    decreases s.len() - i,
{
    if i < 0 || i >= s.len() || s[i] == '\n' {
        i
    } else {
        line_end(s, i + 1)
    }
}

proof fn lemma_line_end_bounds(s: Seq<char>, i: int)
    requires
        0 <= i <= s.len(),
    ensures
        i <= line_end(s, i) <= s.len(),
        line_end(s, i) < s.len() ==> s[line_end(s, i)] == '\n',
    decreases s.len() - i,
{
    if i < s.len() && s[i] != '\n' {
        lemma_line_end_bounds(s, i + 1);
    }
}

/// The title of the first line at or after position `i` that declares one.
pub open spec fn title_from(s: Seq<char>, i: int) -> Option<Seq<char>>
    decreases s.len() - i via title_from_decreases
{
    if i < 0 || i > s.len() {
        None
    } else {
        let e = line_end(s, i);
        match line_title(s.subrange(i, e)) {
            Some(t) => Some(t),
            None => if i <= e < s.len() {
                title_from(s, e + 1)
            } else {
                None
            },
        }
    }
}

#[via_fn]
proof fn title_from_decreases(s: Seq<char>, i: int) {
    if 0 <= i <= s.len() {
        lemma_line_end_bounds(s, i);
    }
}

/// The title of a document: the one of its first line that declares one.
pub open spec fn document_title(s: Seq<char>) -> Option<Seq<char>> {
    title_from(s, 0)
}

/// The title of a document with its links replaced by their labels.
pub open spec fn clean_title(s: Seq<char>) -> Option<Seq<char>> {
    match document_title(s) {
        Some(t) => Some(links_to_labels(t)),
        None => None,
    }
}

pub open spec fn opt_view(o: Option<String>) -> Option<Seq<char>> {
    match o {
        Some(t) => Some(t@),
        None => None,
    }
}

fn is_white_space(c: char) -> (r: bool)
    ensures
        r == white_space(c),
{
    let n = c as u32;
    (9 <= n && n <= 13) || n == 32 || n == 0x85 || n == 0xa0 || n == 0x1680 || (0x2000 <= n && n
        <= 0x200a) || n == 0x2028 || n == 0x2029 || n == 0x202f || n == 0x205f || n == 0x3000
}

fn trimmed_bounds(cs: &Vec<char>, lo: usize, hi: usize) -> (r: (usize, usize))
    requires
        lo <= hi <= cs@.len(),
    ensures
        lo <= r.0 <= r.1 <= hi,
        cs@.subrange(r.0 as int, r.1 as int) == trim(cs@.subrange(lo as int, hi as int)),
{
    let mut a: usize = lo;
    while a < hi && is_white_space(cs[a])
        invariant
            lo <= a <= hi <= cs@.len(),
            trim_start(cs@.subrange(lo as int, hi as int)) == trim_start(
                cs@.subrange(a as int, hi as int),
            ),
        decreases hi - a,
    {
        assert(cs@.subrange(a as int, hi as int).drop_first() == cs@.subrange(a + 1, hi as int));
        a = a + 1;
    }
    let mut b: usize = hi;
    while b > a && is_white_space(cs[b - 1])
        invariant
            lo <= a <= b <= hi <= cs@.len(),
            trim_start(cs@.subrange(lo as int, hi as int)) == cs@.subrange(a as int, hi as int),
            trim(cs@.subrange(lo as int, hi as int)) == trim_end(cs@.subrange(a as int, b as int)),
        decreases b - a,
    {
        assert(cs@.subrange(a as int, b as int).drop_last() == cs@.subrange(a as int, b - 1));
        b = b - 1;
    }
    (a, b)
}

fn title_in(cs: &Vec<char>, lo: usize, hi: usize) -> (r: Option<String>)
    requires
        lo <= hi <= cs@.len(),
    ensures
        opt_view(r) == line_title(cs@.subrange(lo as int, hi as int)),
{
    let ghost line = cs@.subrange(lo as int, hi as int);
    let mut a: usize = lo;
    while a < hi && is_white_space(cs[a])
        invariant
            lo <= a <= hi <= cs@.len(),
            trim_start(line) == trim_start(cs@.subrange(a as int, hi as int)),
        decreases hi - a,
    {
        assert(cs@.subrange(a as int, hi as int).drop_first() == cs@.subrange(a + 1, hi as int));
        a = a + 1;
    }
    let ghost t = cs@.subrange(a as int, hi as int);
    assert(trim_start(line) == t);
    if hi - a < 8 {
        return None;
    }
    let lower = ['#', '+', 't', 'i', 't', 'l', 'e', ':'];
    let upper = ['#', '+', 'T', 'I', 'T', 'L', 'E', ':'];
    let mut k: usize = 0;
    while k < 8
        invariant
            k <= 8,
            a + 8 <= hi <= cs@.len(),
            t == cs@.subrange(a as int, hi as int),
            line == cs@.subrange(lo as int, hi as int),
            trim_start(line) == t,
            lower@ == directive(),
            upper@ == directive_upper(),
            forall|j: int| 0 <= j < k ==> t[j] == directive()[j] || t[j] == directive_upper()[j],
        decreases 8 - k,
    {
        if cs[a + k] != lower[k] && cs[a + k] != upper[k] {
            assert(t[k as int] == cs@[a + k]);
            assert(!starts_with_directive(t));
            return None;
        }
        k = k + 1;
    }
    let (x, y) = trimmed_bounds(cs, a + 8, hi);
    assert(t.subrange(8, t.len() as int) == cs@.subrange(a + 8, hi as int));
    Some(string_of(&cs.as_slice()[x..y]))
}

/// The title that one line declares, if it holds the title directive.
pub fn extract_title(line: &str) -> (r: Option<String>)
    ensures
        opt_view(r) == line_title(line@),
{
    let cs = chars_of(line);
    assert(cs@.subrange(0, cs@.len() as int) == cs@);
    title_in(&cs, 0, cs.len())
}

fn find_line_end(cs: &Vec<char>, i: usize) -> (r: usize)
    requires
        i <= cs@.len(),
    ensures
        r == line_end(cs@, i as int),
{
    let mut k: usize = i;
    while k < cs.len() && cs[k] != '\n'
        invariant
            i <= k <= cs@.len(),
            line_end(cs@, k as int) == line_end(cs@, i as int),
        decreases cs@.len() - k,
    {
        k = k + 1;
    }
    k
}

/// The raw title of a document: the title of its first line that holds
/// the title directive. Later directive lines are ignored.
pub fn title_from_file(content: &str) -> (r: Option<String>)
    ensures
        opt_view(r) == document_title(content@),
{
    let cs = chars_of(content);
    let mut i: usize = 0;
    loop
        invariant
            i <= cs@.len(),
            cs@ == content@,
            title_from(cs@, i as int) == document_title(content@),
        decreases cs@.len() - i,
    {
        let e = find_line_end(&cs, i);
        proof {
            lemma_line_end_bounds(cs@, i as int);
        }
        let t = title_in(&cs, i, e);
        if t.is_some() {
            return t;
        }
        if e == cs.len() {
            return None;
        }
        i = e + 1;
    }
}

/// The title of a document, with each link replaced by its label.
pub fn extract_org_title(content: &str) -> (r: Option<String>)
    ensures
        opt_view(r) == clean_title(content@),
{
    match title_from_file(content) {
        Some(t) => Some(strip_org_links(t.as_str())),
        None => None,
    }
}

} // verus!
