use vstd::prelude::*;
use crate::index::{InvertedIndex, Pairs, with_doc, without_doc};
use crate::text::chars_of;
use crate::title::{clean_title, extract_org_title};
use crate::tokens::{tokenize, tokens_of, views};

verus! {

/// Where documents are recognised, and where the index keeps its own files.
pub struct Layout {
    /// The ending of a document's file name, such as `.org`.
    pub suffix: String,
    /// The directory that holds the persisted index; nothing inside it is
    /// ever indexed.
    pub storage: String,
}

/// One file found under the document root.
pub struct Document {
    /// The document's key: its path.
    pub path: String,
    /// Its modification time, when it could be read.
    pub modified: Option<u64>,
    /// Its text, when it could be read.
    pub content: Option<String>,
}

pub open spec fn ends_with(s: Seq<char>, suffix: Seq<char>) -> bool {
    suffix.len() <= s.len() && s.subrange(s.len() - suffix.len(), s.len() as int) == suffix
}

/// Whether path `p` is directory `dir` or lies beneath it; `dir` may be
/// written with or without a final `/`.
pub open spec fn within(p: Seq<char>, dir: Seq<char>) -> bool {
    p == dir || (p.len() > dir.len() && p.subrange(0, dir.len() as int) == dir && ((dir.len() > 0
        && dir.last() == '/') || p[dir.len() as int] == '/'))
}

/// Whether a path names a document: it has the document suffix and lies
/// outside the index's storage.
pub open spec fn is_candidate(path: Seq<char>, layout: Layout) -> bool {
    ends_with(path, layout.suffix@) && !within(path, layout.storage@)
}

/// Whether a document must be (re)indexed against the watermark: it is a
/// candidate, and it changed after the watermark or its time is unknown.
pub open spec fn stale(path: Seq<char>, modified: Option<u64>, layout: Layout, watermark: u64) -> bool {
    is_candidate(path, layout) && match modified {
        Some(m) => m > watermark,
        None => true,
    }
}

/// The tokens of the cleaned title of a text, if it declares a title.
pub open spec fn title_tokens(c: Seq<char>) -> Option<Seq<Seq<char>>> {
    match clean_title(c) {
        Some(t) => Some(tokens_of(t)),
        None => None,
    }
}

/// The tokens of a document's cleaned title, if it has text and a title.
pub open spec fn doc_tokens(content: Option<String>) -> Option<Seq<Seq<char>>> {
    match content {
        Some(c) => title_tokens(c@),
        None => None,
    }
}

/// `s` with document `d` added under its title's tokens, if it has any.
pub open spec fn add_doc(s: Pairs, d: Document) -> Pairs {
    match doc_tokens(d.content) {
        Some(toks) => with_doc(s, d.path@, toks),
        None => s,
    }
}

/// `s` with document `d` indexed afresh: its old postings are retracted
/// whether or not a title is found now.
pub open spec fn reindex(s: Pairs, d: Document) -> Pairs {
    add_doc(without_doc(s, d.path@), d)
}

/// The postings of a full build over `docs`.
pub open spec fn built(docs: Seq<Document>, layout: Layout) -> Pairs
    decreases docs.len(),
{
    if docs.len() == 0 {
        Set::empty()
    } else {
        let s = built(docs.drop_last(), layout);
        let d = docs.last();
        if is_candidate(d.path@, layout) {
            add_doc(s, d)
        } else {
            s
        }
    }
}

/// The postings after an incremental update of `s` over `docs`.
pub open spec fn updated(s: Pairs, docs: Seq<Document>, layout: Layout, watermark: u64) -> Pairs
    decreases docs.len(),
{
    if docs.len() == 0 {
        s
    } else {
        let prev = updated(s, docs.drop_last(), layout, watermark);
        let d = docs.last();
        if stale(d.path@, d.modified, layout, watermark) {
            reindex(prev, d)
        } else {
            prev
        }
    }
}

/// How many of `docs` an incremental update (re)indexes.
pub open spec fn stale_count(docs: Seq<Document>, layout: Layout, watermark: u64) -> nat
    decreases docs.len(),
{
    if docs.len() == 0 {
        0
    } else {
        let d = docs.last();
        stale_count(docs.drop_last(), layout, watermark) + if stale(
            d.path@,
            d.modified,
            layout,
            watermark,
        ) {
            1nat
        } else {
            0nat
        }
    }
}

fn ends_with_str(s: &str, suffix: &str) -> (r: bool)
    ensures
        r == ends_with(s@, suffix@),
{
    let cs = chars_of(s);
    let xs = chars_of(suffix);
    if xs.len() > cs.len() {
        return false;
    }
    let n = cs.len();
    let off = n - xs.len();
    let mut i: usize = 0;
    while i < xs.len()
        invariant
            cs@ == s@,
            xs@ == suffix@,
            off + xs@.len() == cs@.len(),
            cs@.len() == n,
            i <= xs@.len(),
            forall|j: int| 0 <= j < i ==> cs@[off + j] == xs@[j],
        decreases xs@.len() - i,
    {
        if cs[off + i] != xs[i] {
            assert(s@.subrange(off as int, s@.len() as int)[i as int] != suffix@[i as int]);
            return false;
        }
        i = i + 1;
    }
    assert(s@.subrange(off as int, s@.len() as int) =~= suffix@);
    true
}

fn within_str(p: &str, dir: &str) -> (r: bool)
    ensures
        r == within(p@, dir@),
{
    let cs = chars_of(p);
    let ds = chars_of(dir);
    if cs.len() < ds.len() {
        return false;
    }
    let mut i: usize = 0;
    while i < ds.len()
        invariant
            cs@ == p@,
            ds@ == dir@,
            ds@.len() <= cs@.len(),
            i <= ds@.len(),
            forall|j: int| 0 <= j < i ==> cs@[j] == ds@[j],
        decreases ds@.len() - i,
    {
        if cs[i] != ds[i] {
            assert(p@.subrange(0, dir@.len() as int)[i as int] != dir@[i as int]);
            assert(p@ != dir@);
            return false;
        }
        i = i + 1;
    }
    assert(p@.subrange(0, dir@.len() as int) =~= dir@);
    if cs.len() == ds.len() {
        assert(p@ =~= dir@);
        return true;
    }
    (ds.len() > 0 && ds[ds.len() - 1] == '/') || cs[ds.len()] == '/'
}

/// Whether a path names a document: it ends with the document suffix and
/// does not lie inside the index's own storage.
pub fn is_candidate_document(path: &str, layout: &Layout) -> (r: bool)
    ensures
        r == is_candidate(path@, *layout),
{
    ends_with_str(path, layout.suffix.as_str()) && !within_str(path, layout.storage.as_str())
}

/// Whether a document must be (re)indexed: it is a candidate and was
/// modified after the watermark. A document whose modification time is
/// unknown is taken to be stale.
pub fn needs_indexing(path: &str, modified: Option<u64>, layout: &Layout, watermark: u64) -> (r: bool)
    ensures
        r == stale(path@, modified, *layout, watermark),
{
    if !is_candidate_document(path, layout) {
        return false;
    }
    match modified {
        Some(m) => m > watermark,
        None => true,
    }
}

/// The tokens of a document's title, links replaced by their labels; none
/// when the text holds no title directive.
pub fn document_tokens(content: &str) -> (r: Option<Vec<String>>)
    ensures
        match r {
            Some(v) => title_tokens(content@) == Some(views(v@)),
            None => title_tokens(content@) is None,
        },
{
    match extract_org_title(content) {
        Some(t) => Some(tokenize(t.as_str())),
        None => None,
    }
}

/// Indexes one document afresh: its old postings are retracted first, then
/// it is added under the tokens of its title, if it still has one.
pub fn index_document(index: &mut InvertedIndex, doc: &Document)
    ensures
        final(index)@ == reindex(old(index)@, *doc),
        final(index).last_update_spec() == old(index).last_update_spec(),
{
    index.remove(doc.path.as_str());
    add_document(index, doc);
}

/// Adds a document under the tokens of its title, if it has one.
fn add_document(index: &mut InvertedIndex, doc: &Document)
    ensures
        final(index)@ == add_doc(old(index)@, *doc),
        final(index).last_update_spec() == old(index).last_update_spec(),
{
    if let Some(c) = &doc.content {
        if let Some(toks) = document_tokens(c.as_str()) {
            index.insert(doc.path.as_str(), &toks);
        }
    }
}

/// Builds an index afresh from every candidate document, last updated at
/// `now`. A document without a title, or whose text could not be read,
/// adds nothing.
pub fn build_index(docs: &Vec<Document>, layout: &Layout, now: u64) -> (r: InvertedIndex)
    ensures
        r@ == built(docs@, *layout),
        r.last_update_spec() == now,
{
    let mut index = InvertedIndex::new(now);
    assert(docs@.take(0).len() == 0);
    for i in 0..docs.len()
        invariant
            index@ == built(docs@.take(i as int), *layout),
            index.last_update_spec() == now,
    {
        assert(docs@.take(i + 1).drop_last() == docs@.take(i as int));
        assert(docs@.take(i + 1).last() == docs@[i as int]);
        if is_candidate_document(docs[i].path.as_str(), layout) {
            add_document(&mut index, &docs[i]);
        }
    }
    assert(docs@.take(docs@.len() as int) == docs@);
    index
}

proof fn lemma_stale_count_bound(docs: Seq<Document>, layout: Layout, watermark: u64)
    ensures
        stale_count(docs, layout, watermark) <= docs.len(),
    decreases docs.len(),
{
    if docs.len() > 0 {
        lemma_stale_count_bound(docs.drop_last(), layout, watermark);
    }
}

/// Brings an index up to date: each candidate document modified after the
/// index's last update (or whose time is unknown) is indexed afresh, and the
/// others are left alone. Returns how many documents were indexed afresh;
/// when there was at least one, the last update becomes `now`.
pub fn update_index(index: &mut InvertedIndex, docs: &Vec<Document>, layout: &Layout, now: u64) -> (r: usize)
    ensures
        final(index)@ == updated(old(index)@, docs@, *layout, old(index).last_update_spec()),
        r == stale_count(docs@, *layout, old(index).last_update_spec()),
        final(index).last_update_spec() == if r > 0 {
            now
        } else {
            old(index).last_update_spec()
        },
{
    let watermark = index.last_update();
    let mut count: usize = 0;
    assert(docs@.take(0).len() == 0);
    for i in 0..docs.len()
        invariant
            watermark == old(index).last_update_spec(),
            index.last_update_spec() == watermark,
            index@ == updated(old(index)@, docs@.take(i as int), *layout, watermark),
            count == stale_count(docs@.take(i as int), *layout, watermark),
    {
        assert(docs@.take(i + 1).drop_last() == docs@.take(i as int));
        assert(docs@.take(i + 1).last() == docs@[i as int]);
        proof {
            lemma_stale_count_bound(docs@.take(i + 1), *layout, watermark);
        }
        let d = &docs[i];
        if needs_indexing(d.path.as_str(), d.modified, layout, watermark) {
            index_document(index, d);
            count = count + 1;
        }
    }
    assert(docs@.take(docs@.len() as int) == docs@);
    if count > 0 {
        index.set_last_update(now);
    }
    count
}

/// Indexing a document afresh twice in a row gives what once gives.
pub proof fn lemma_reindex_idempotent(s: Pairs, d: Document)
    ensures
        reindex(reindex(s, d), d) == reindex(s, d),
{
    let once = reindex(s, d);
    assert(without_doc(once, d.path@) =~= without_doc(s, d.path@));
}

/// Whether no posting of `s` names a document inside the storage `dir`.
pub open spec fn clear_of(s: Pairs, dir: Seq<char>) -> bool {
    forall|p: (Seq<char>, Seq<char>)| s.contains(p) ==> !within(p.1, dir)
}

/// A path inside the index's storage is never a candidate document, so it
/// is never found stale, whatever its name and time.
pub proof fn lemma_storage_not_candidate(
    path: Seq<char>,
    modified: Option<u64>,
    layout: Layout,
    watermark: u64,
)
    requires
        within(path, layout.storage@),
    ensures
        !is_candidate(path, layout),
        !stale(path, modified, layout, watermark),
{
}

/// A full build indexes no document inside the index's storage.
pub proof fn lemma_build_skips_storage(docs: Seq<Document>, layout: Layout)
    ensures
        clear_of(built(docs, layout), layout.storage@),
    decreases docs.len(),
{
    if docs.len() > 0 {
        lemma_build_skips_storage(docs.drop_last(), layout);
    }
}

/// An incremental update adds no document inside the index's storage.
pub proof fn lemma_update_skips_storage(
    s: Pairs,
    docs: Seq<Document>,
    layout: Layout,
    watermark: u64,
)
    requires
        clear_of(s, layout.storage@),
    ensures
        clear_of(updated(s, docs, layout, watermark), layout.storage@),
    decreases docs.len(),
{
    if docs.len() > 0 {
        lemma_update_skips_storage(s, docs.drop_last(), layout, watermark);
    }
}

} // verus!
