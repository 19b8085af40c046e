use vstd::prelude::*;
use crate::tokens::{tokenize, tokens_of, views};

verus! {

/// A set of postings: each pair holds a token and a document key.
pub type Pairs = Set<(Seq<char>, Seq<char>)>;

/// The keys of the documents whose title holds token `t`.
pub open spec fn posting(s: Pairs, t: Seq<char>) -> Set<Seq<char>> {
    Set::new(|d: Seq<char>| s.contains((t, d)))
}

/// Whether document `d` has any posting in `s`.
pub open spec fn holds_doc(s: Pairs, d: Seq<char>) -> bool {
    exists|t: Seq<char>| s.contains((t, d))
}

/// `s` with document `d` added under each of the tokens `toks`.
pub open spec fn with_doc(s: Pairs, d: Seq<char>, toks: Seq<Seq<char>>) -> Pairs {
    s.union(Set::new(|p: (Seq<char>, Seq<char>)| p.1 == d && toks.contains(p.0)))
}

/// `s` with every posting of document `d` taken out.
pub open spec fn without_doc(s: Pairs, d: Seq<char>) -> Pairs {
    s.filter(|p: (Seq<char>, Seq<char>)| p.1 != d)
}

/// The documents whose postings cover every token of `toks`; none when
/// there is no token at all.
pub open spec fn matches(s: Pairs, toks: Seq<Seq<char>>) -> Set<Seq<char>> {
    if toks.len() == 0 {
        Set::empty()
    } else {
        Set::new(|d: Seq<char>| forall|j: int| 0 <= j < toks.len() ==> s.contains((toks[j], d)))
    }
}

pub open spec fn pair_view(e: (String, String)) -> (Seq<char>, Seq<char>) {
    (e.0@, e.1@)
}

/// The inverted index from title tokens to document keys, with the time of
/// its last successful update.
pub struct InvertedIndex {
    entries: Vec<(String, String)>,
    stamp: u64,
}

impl View for InvertedIndex {
    type V = Pairs;

    closed spec fn view(&self) -> Pairs {
        pairs_of(self.entries@)
    }
}

pub open spec fn pairs_of(es: Seq<(String, String)>) -> Pairs {
    es.map_values(|e: (String, String)| pair_view(e)).to_set()
}

proof fn lemma_pairs_of_push(es: Seq<(String, String)>, e: (String, String))
    ensures
        pairs_of(es.push(e)) == pairs_of(es).insert(pair_view(e)),
{
    let f = |e: (String, String)| pair_view(e);
    assert(es.push(e).map_values(f) == es.map_values(f).push(pair_view(e)));
    es.map_values(f).lemma_push_to_set_commute(pair_view(e));
}

impl InvertedIndex {
    /// The time of the last successful update.
    pub closed spec fn last_update_spec(&self) -> u64 {
        self.stamp
    }

    /// An empty index, last updated at `stamp`.
    pub fn new(stamp: u64) -> (r: InvertedIndex)
        ensures
            r@ == Set::<(Seq<char>, Seq<char>)>::empty(),
            r.last_update_spec() == stamp,
    {
        let r = InvertedIndex { entries: Vec::new(), stamp };
        assert(r@ =~= Set::<(Seq<char>, Seq<char>)>::empty());
        r
    }

    /// The time of the last successful update.
    pub fn last_update(&self) -> (r: u64)
        ensures
            r == self.last_update_spec(),
    {
        self.stamp
    }

    /// Records `stamp` as the time of the last successful update.
    pub fn set_last_update(&mut self, stamp: u64)
        ensures
            final(self)@ == old(self)@,
            final(self).last_update_spec() == stamp,
    {
        self.stamp = stamp;
    }

    /// Whether document `doc` stands under token `token`.
    pub fn contains(&self, token: &String, doc: &String) -> (r: bool)
        ensures
            r == self@.contains((token@, doc@)),
    {
        let ghost vs = self.entries@.map_values(|e: (String, String)| pair_view(e));
        let mut i: usize = 0;
        while i < self.entries.len()
            invariant
                i <= self.entries@.len(),
                vs == self.entries@.map_values(|e: (String, String)| pair_view(e)),
                forall|j: int| 0 <= j < i ==> vs[j] != (token@, doc@),
            decreases self.entries@.len() - i,
        {
            let e = &self.entries[i];
            if e.0 == *token && e.1 == *doc {
                assert(vs[i as int] == (token@, doc@));
                return true;
            }
            i = i + 1;
        }
        false
    }
}

impl InvertedIndex {
    /// Adds document `doc` under each of the tokens. A pair that is already
    /// there is not added twice.
    pub fn insert(&mut self, doc: &str, tokens: &Vec<String>)
        ensures
            final(self)@ == with_doc(old(self)@, doc@, views(tokens@)),
            final(self).last_update_spec() == old(self).last_update_spec(),
    {
        let key = doc.to_owned();
        let ghost toks = views(tokens@);
        assert(toks.take(0) =~= Seq::<Seq<char>>::empty());
        assert(self@ =~= with_doc(old(self)@, doc@, toks.take(0)));
        for i in 0..tokens.len()
            invariant
                key@ == doc@,
                toks == views(tokens@),
                self@ == with_doc(old(self)@, doc@, toks.take(i as int)),
                self.stamp == old(self).stamp,
        {
            let ghost before = self@;
            let ghost e = (tokens@[i as int], key);
            if !self.contains(&tokens[i], &key) {
                proof {
                    lemma_pairs_of_push(self.entries@, e);
                }
                self.entries.push((tokens[i].clone(), key.clone()));
            }
            assert(self@ == before.insert((toks[i as int], doc@)));
            assert(toks.take(i + 1) == toks.take(i as int).push(toks[i as int]));
            assert forall|t: Seq<char>|
                toks.take(i + 1).contains(t) <==> (toks.take(i as int).contains(t) || t
                    == toks[i as int]) by {
                vstd::seq_lib::lemma_seq_contains_after_push(
                    toks.take(i as int),
                    toks[i as int],
                    t,
                );
            }
            assert(self@ =~= with_doc(old(self)@, doc@, toks.take(i + 1)));
        }
        assert(toks.take(tokens@.len() as int) == toks);
    }

    /// Takes document `doc` out of every posting it stands in.
    pub fn remove(&mut self, doc: &str)
        ensures
            final(self)@ == without_doc(old(self)@, doc@),
            final(self).last_update_spec() == old(self).last_update_spec(),
    {
        let key = doc.to_owned();
        let mut kept: Vec<(String, String)> = Vec::new();
        assert(self.entries@.take(0) =~= Seq::<(String, String)>::empty());
        assert(pairs_of(kept@) =~= without_doc(pairs_of(self.entries@.take(0)), doc@));
        for i in 0..self.entries.len()
            invariant
                key@ == doc@,
                pairs_of(kept@) == without_doc(pairs_of(self.entries@.take(i as int)), doc@),
        {
            let ghost e = self.entries@[i as int];
            proof {
                assert(self.entries@.take(i + 1) == self.entries@.take(i as int).push(e));
                lemma_pairs_of_push(self.entries@.take(i as int), e);
            }
            if !(self.entries[i].1 == key) {
                proof {
                    lemma_pairs_of_push(kept@, e);
                }
                kept.push((self.entries[i].0.clone(), self.entries[i].1.clone()));
            }
            assert(pairs_of(kept@) =~= without_doc(pairs_of(self.entries@.take(i + 1)), doc@));
        }
        assert(self.entries@.take(self.entries@.len() as int) == self.entries@);
        self.entries = kept;
    }
}

/// Whether `v` holds a string equal to `s`.
fn contains_str(v: &Vec<String>, s: &String) -> (r: bool)
    ensures
        r == views(v@).contains(s@),
{
    let mut i: usize = 0;
    while i < v.len()
        invariant
            i <= v@.len(),
            forall|j: int| 0 <= j < i ==> views(v@)[j] != s@,
        decreases v@.len() - i,
    {
        if v[i] == *s {
            assert(views(v@)[i as int] == s@);
            return true;
        }
        i = i + 1;
    }
    false
}

/// Whether document `d` stands under every token of `toks`.
pub open spec fn under_all(s: Pairs, toks: Seq<Seq<char>>, d: Seq<char>) -> bool {
    forall|j: int| 0 <= j < toks.len() ==> s.contains((toks[j], d))
}

impl InvertedIndex {
    /// The keys of the documents under `token`, each once; none for a token
    /// that the index does not know.
    pub fn lookup(&self, token: &String) -> (r: Vec<String>)
        ensures
            views(r@).to_set() == posting(self@, token@),
            views(r@).no_duplicates(),
    {
        let ghost vs = self.entries@.map_values(|e: (String, String)| pair_view(e));
        let mut out: Vec<String> = Vec::new();
        for i in 0..self.entries.len()
            invariant
                vs == self.entries@.map_values(|e: (String, String)| pair_view(e)),
                views(out@).no_duplicates(),
                forall|d: Seq<char>|
                    views(out@).contains(d) <==> vs.take(i as int).contains((token@, d)),
        {
            proof {
                assert(vs.take(i + 1) == vs.take(i as int).push(vs[i as int]));
                assert forall|x: (Seq<char>, Seq<char>)|
                    vs.take(i + 1).contains(x) <==> (vs.take(i as int).contains(x) || x
                        == vs[i as int]) by {
                    vstd::seq_lib::lemma_seq_contains_after_push(vs.take(i as int), vs[i as int], x);
                }
            }
            let ghost before = views(out@);
            assert(vs[i as int] == (self.entries@[i as int].0@, self.entries@[i as int].1@));
            if self.entries[i].0 == *token {
                if !contains_str(&out, &self.entries[i].1) {
                    out.push(self.entries[i].1.clone());
                    assert(views(out@) == before.push(vs[i as int].1));
                    assert forall|d: Seq<char>|
                        views(out@).contains(d) <==> (before.contains(d) || d == vs[i as int].1) by {
                        vstd::seq_lib::lemma_seq_contains_after_push(before, vs[i as int].1, d);
                    }
                }
            }
            assert forall|d: Seq<char>|
                views(out@).contains(d) <==> vs.take(i + 1).contains((token@, d)) by {
                assert(vs.take(i + 1).contains((token@, d)) <==> (vs.take(i as int).contains(
                    (token@, d),
                ) || (token@, d) == vs[i as int]));
                assert(before.contains(d) <==> vs.take(i as int).contains((token@, d)));
                if (token@, d) == vs[i as int] {
                    assert(views(out@).contains(d));
                } else {
                    assert(views(out@).contains(d) <==> before.contains(d));
                }
            }
        }
        assert(vs.take(vs.len() as int) == vs);
        assert(views(out@).to_set() =~= posting(self@, token@));
        out
    }

    /// The documents whose title holds every one of the tokens, each once.
    /// With no token at all, there is no match.
    pub fn search_tokens(&self, tokens: &Vec<String>) -> (r: Vec<String>)
        ensures
            views(r@).to_set() == matches(self@, views(tokens@)),
            views(r@).no_duplicates(),
    {
        let ghost toks = views(tokens@);
        let mut out: Vec<String> = Vec::new();
        if tokens.len() == 0 {
            assert(views(out@).to_set() =~= matches(self@, toks));
            return out;
        }
        let first = self.lookup(&tokens[0]);
        let ghost fs = views(first@);
        if first.len() == 0 {
            assert forall|d: Seq<char>| !matches(self@, toks).contains(d) by {
                if matches(self@, toks).contains(d) {
                    assert(posting(self@, toks[0]).contains(d));
                    assert(fs.to_set().contains(d));
                }
            }
            assert(views(out@).to_set() =~= matches(self@, toks));
            return out;
        }
        for i in 0..first.len()
            invariant
                toks == views(tokens@),
                tokens@.len() > 0,
                fs == views(first@),
                fs.to_set() == posting(self@, toks[0]),
                views(out@).no_duplicates(),
                forall|d: Seq<char>|
                    views(out@).contains(d) <==> (fs.take(i as int).contains(d) && under_all(
                        self@,
                        toks,
                        d,
                    )),
        {
            let mut all = true;
            for j in 0..tokens.len()
                invariant
                    toks == views(tokens@),
                    fs == views(first@),
                    i < first@.len(),
                    all <==> (forall|k: int| 0 <= k < j ==> self@.contains((toks[k], fs[i as int]))),
            {
                assert(toks[j as int] == tokens@[j as int]@);
                assert(fs[i as int] == first@[i as int]@);
                all = all && self.contains(&tokens[j], &first[i]);
            }
            assert(all == under_all(self@, toks, fs[i as int]));
            let ghost before = views(out@);
            if all {
                if !contains_str(&out, &first[i]) {
                    out.push(first[i].clone());
                    assert(views(out@) == before.push(fs[i as int]));
                    assert forall|d: Seq<char>|
                        views(out@).contains(d) <==> (before.contains(d) || d == fs[i as int]) by {
                        vstd::seq_lib::lemma_seq_contains_after_push(before, fs[i as int], d);
                    }
                }
            }
            assert forall|d: Seq<char>|
                views(out@).contains(d) <==> (fs.take(i + 1).contains(d) && under_all(
                    self@,
                    toks,
                    d,
                )) by {
                assert(fs.take(i + 1) == fs.take(i as int).push(fs[i as int]));
                vstd::seq_lib::lemma_seq_contains_after_push(fs.take(i as int), fs[i as int], d);
                if d == fs[i as int] {
                    if all {
                        assert(views(out@).contains(d));
                    }
                } else {
                    assert(views(out@).contains(d) <==> before.contains(d));
                }
            }
        }
        assert(fs.take(fs.len() as int) == fs);
        assert forall|d: Seq<char>|
            views(out@).contains(d) <==> matches(self@, toks).contains(d) by {
            if under_all(self@, toks, d) {
                assert(self@.contains((toks[0], d)));
                assert(posting(self@, toks[0]).contains(d));
                assert(fs.to_set().contains(d));
            }
        }
        assert(views(out@).to_set() =~= matches(self@, toks));
        out
    }
}

impl InvertedIndex {
    /// Every (token, document key) pair of the index.
    pub fn entries(&self) -> (r: Vec<(String, String)>)
        ensures
            pairs_of(r@) == self@,
    {
        let mut out: Vec<(String, String)> = Vec::new();
        for i in 0..self.entries.len()
            invariant
                out@.len() == i,
                forall|j: int| 0 <= j < i ==> pair_view(out@[j]) == pair_view(self.entries@[j]),
        {
            let t = self.entries[i].0.clone();
            let d = self.entries[i].1.clone();
            out.push((t, d));
        }
        assert(out@.map_values(|e: (String, String)| pair_view(e)) =~= self.entries@.map_values(
            |e: (String, String)| pair_view(e),
        ));
        out
    }

    /// The index that holds exactly the given (token, document key) pairs,
    /// last updated at `stamp`.
    pub fn from_entries(entries: Vec<(String, String)>, stamp: u64) -> (r: InvertedIndex)
        ensures
            r@ == pairs_of(entries@),
            r.last_update_spec() == stamp,
    {
        InvertedIndex { entries, stamp }
    }
}

/// The documents whose title holds every token of the query, each once. A
/// query without tokens (empty, or only digits and punctuation) matches
/// nothing.
pub fn search(index: &InvertedIndex, query: &str) -> (r: Vec<String>)
    ensures
        views(r@).to_set() == matches(index@, tokens_of(query@)),
        views(r@).no_duplicates(),
        tokens_of(query@).len() == 0 ==> r@.len() == 0,
{
    let tokens = tokenize(query);
    let r = index.search_tokens(&tokens);
    proof {
        if tokens_of(query@).len() == 0 {
            assert(views(r@).to_set().len() == 0);
            views(r@).unique_seq_to_set();
        }
    }
    r
}

/// Inserting a document that the index does not hold and then removing it
/// gives back the postings as they were, token by token.
pub proof fn lemma_insert_remove_round_trip(
    index: InvertedIndex,
    doc: Seq<char>,
    tokens: Seq<Seq<char>>,
)
    requires
        !holds_doc(index@, doc),
    ensures
        without_doc(with_doc(index@, doc, tokens), doc) == index@,
        forall|t: Seq<char>| posting(without_doc(with_doc(index@, doc, tokens), doc), t) == posting(index@, t),
{
    let s = index@;
    assert forall|p: (Seq<char>, Seq<char>)| s.contains(p) implies p.1 != doc by {
        if p.1 == doc {
            assert(s.contains((p.0, doc)));
        }
    }
    assert(without_doc(with_doc(s, doc, tokens), doc) =~= s);
}

/// A query without tokens matches nothing, whatever the index holds.
pub proof fn lemma_empty_query(index: InvertedIndex)
    ensures
        matches(index@, seq![]) == Set::<Seq<char>>::empty(),
{
}

/// The tokens of a longer query narrow the match: when the tokens `t` of a
/// combined query hold every token of two non-empty token lists `t1` and
/// `t2`, the combined query matches only documents that both match; when
/// `t` holds exactly their tokens, it matches exactly those.
pub proof fn lemma_query_intersection(
    index: InvertedIndex,
    t1: Seq<Seq<char>>,
    t2: Seq<Seq<char>>,
    t: Seq<Seq<char>>,
)
    requires
        t1.len() > 0,
        t2.len() > 0,
        forall|x: Seq<char>| t1.contains(x) ==> t.contains(x),
        forall|x: Seq<char>| t2.contains(x) ==> t.contains(x),
    ensures
        matches(index@, t).subset_of(matches(index@, t1).intersect(matches(index@, t2))),
        t.to_set() == t1.to_set().union(t2.to_set()) ==> matches(index@, t) == matches(
            index@,
            t1,
        ).intersect(matches(index@, t2)),
{
    let s = index@;
    assert(t.contains(t1[0]));
    assert forall|d: Seq<char>| matches(s, t).contains(d) implies matches(s, t1).contains(d)
        && matches(s, t2).contains(d) by {
        assert forall|j: int| 0 <= j < t1.len() implies s.contains((t1[j], d)) by {
            assert(t1.contains(t1[j]));
            let k = choose|k: int| 0 <= k < t.len() && t[k] == t1[j];
        }
        assert forall|j: int| 0 <= j < t2.len() implies s.contains((t2[j], d)) by {
            assert(t2.contains(t2[j]));
            let k = choose|k: int| 0 <= k < t.len() && t[k] == t2[j];
        }
    }
    if t.to_set() == t1.to_set().union(t2.to_set()) {
        assert forall|d: Seq<char>|
            matches(s, t1).contains(d) && matches(s, t2).contains(d) implies matches(
            s,
            t,
        ).contains(d) by {
            assert forall|j: int| 0 <= j < t.len() implies s.contains((t[j], d)) by {
                assert(t.to_set().contains(t[j]));
                if t1.to_set().contains(t[j]) {
                    let k = choose|k: int| 0 <= k < t1.len() && t1[k] == t[j];
                } else {
                    assert(t2.to_set().contains(t[j]));
                    let k = choose|k: int| 0 <= k < t2.len() && t2[k] == t[j];
                }
            }
        }
        assert(matches(s, t) =~= matches(s, t1).intersect(matches(s, t2)));
    }
}

} // verus!
