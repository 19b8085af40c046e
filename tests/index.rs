use title_index::{
    build_index, index_document, is_candidate_document, needs_indexing, search, update_index,
    Document, InvertedIndex, Layout,
};

fn layout() -> Layout {
    Layout { suffix: ".doc".to_string(), storage: "data/index.store".to_string() }
}

fn doc(path: &str, modified: Option<u64>, content: Option<&str>) -> Document {
    Document {
        path: path.to_string(),
        modified,
        content: content.map(|c| c.to_string()),
    }
}

fn sorted(mut v: Vec<String>) -> Vec<String> {
    v.sort();
    v
}

fn toks(words: &[&str]) -> Vec<String> {
    words.iter().map(|w| w.to_string()).collect()
}

fn scenario() -> Vec<Document> {
    vec![
        doc("a.doc", Some(10), Some("#+title: The Bears Den\nbody\n")),
        doc("b.doc", Some(10), Some("#+title: Second Bears Camp\n")),
        doc("c.doc", Some(10), Some("no title directive here\n")),
    ]
}

#[test]
fn full_build_scenario() {
    let index = build_index(&scenario(), &layout(), 100);
    assert_eq!(index.last_update(), 100);
    assert_eq!(sorted(search(&index, "bears")), vec!["a.doc", "b.doc"]);
    assert_eq!(search(&index, "bears second"), vec!["b.doc"]);
    assert!(search(&index, "camp unicorns").is_empty());
}

#[test]
fn query_order_and_case_do_not_matter() {
    let index = build_index(&scenario(), &layout(), 100);
    assert_eq!(search(&index, "SECOND, bears"), vec!["b.doc"]);
    assert_eq!(search(&index, "bears bears second"), vec!["b.doc"]);
}

#[test]
fn incremental_scenario() {
    let mut index = build_index(&scenario(), &layout(), 100);
    let mut docs = scenario();
    docs[0] = doc("a.doc", Some(200), Some("#+title: Second Bears Den\n"));
    let n = update_index(&mut index, &docs, &layout(), 300);
    assert_eq!(n, 1);
    assert_eq!(index.last_update(), 300);
    assert_eq!(sorted(search(&index, "second")), vec!["a.doc", "b.doc"]);
    assert!(search(&index, "the").is_empty());
}

#[test]
fn update_without_changes_keeps_stamp() {
    let mut index = build_index(&scenario(), &layout(), 100);
    let n = update_index(&mut index, &scenario(), &layout(), 300);
    assert_eq!(n, 0);
    assert_eq!(index.last_update(), 100);
    assert_eq!(sorted(search(&index, "bears")), vec!["a.doc", "b.doc"]);
}

#[test]
fn stale_document_without_title_is_retracted() {
    let mut index = build_index(&scenario(), &layout(), 100);
    let docs = vec![doc("a.doc", Some(150), Some("title removed\n"))];
    assert_eq!(update_index(&mut index, &docs, &layout(), 200), 1);
    assert_eq!(search(&index, "bears"), vec!["b.doc"]);
    assert!(search(&index, "den").is_empty());
}

#[test]
fn unreadable_stale_document_is_retracted() {
    let mut index = build_index(&scenario(), &layout(), 100);
    let docs = vec![doc("b.doc", None, None)];
    assert_eq!(update_index(&mut index, &docs, &layout(), 200), 1);
    assert_eq!(search(&index, "bears"), vec!["a.doc"]);
}

#[test]
fn storage_is_never_indexed() {
    let docs = vec![
        doc("data/index.store/meta.doc", Some(10), Some("#+title: Bears")),
        doc("data/index.store", Some(10), Some("#+title: Bears")),
        doc("data/x.doc", Some(10), Some("#+title: Bears")),
    ];
    let index = build_index(&docs, &layout(), 100);
    assert_eq!(search(&index, "bears"), vec!["data/x.doc"]);
    let mut index = InvertedIndex::new(0);
    assert_eq!(update_index(&mut index, &docs, &layout(), 100), 1);
    assert_eq!(search(&index, "bears"), vec!["data/x.doc"]);
}

#[test]
fn storage_with_final_slash() {
    let l = Layout { suffix: ".doc".to_string(), storage: "data/store/".to_string() };
    assert!(!is_candidate_document("data/store/a.doc", &l));
    assert!(is_candidate_document("data/storex.doc", &l));
    assert!(is_candidate_document("data/a.doc", &l));
}

#[test]
fn candidates_need_the_suffix() {
    assert!(is_candidate_document("notes/a.doc", &layout()));
    assert!(!is_candidate_document("notes/a.org", &layout()));
    assert!(!is_candidate_document("notes", &layout()));
    assert!(!is_candidate_document("data/index.store/a.doc", &layout()));
    assert!(is_candidate_document("data/index.stored.doc", &layout()));
    let docs = vec![doc("a.txt", Some(1), Some("#+title: Bears"))];
    assert!(search(&build_index(&docs, &layout(), 5), "bears").is_empty());
}

#[test]
fn staleness_rules() {
    let l = layout();
    assert!(needs_indexing("a.doc", Some(11), &l, 10));
    assert!(!needs_indexing("a.doc", Some(10), &l, 10));
    assert!(!needs_indexing("a.doc", Some(9), &l, 10));
    assert!(needs_indexing("a.doc", None, &l, 10));
    assert!(!needs_indexing("a.txt", None, &l, 10));
    assert!(!needs_indexing("data/index.store/a.doc", None, &l, 0));
}

#[test]
fn empty_queries_match_nothing() {
    let index = build_index(&scenario(), &layout(), 100);
    assert!(search(&index, "").is_empty());
    assert!(search(&index, "!!! 42 ...").is_empty());
    assert!(index.search_tokens(&Vec::new()).is_empty());
}

#[test]
fn longer_query_narrows_results() {
    let index = build_index(&scenario(), &layout(), 100);
    let both = sorted(search(&index, "bears second"));
    let first = search(&index, "bears");
    let second = search(&index, "second");
    for d in &both {
        assert!(first.contains(d) && second.contains(d));
    }
    let common: Vec<String> = sorted(first.into_iter().filter(|d| second.contains(d)).collect());
    assert_eq!(both, common);
}

#[test]
fn insert_then_remove_restores_postings() {
    let mut index = InvertedIndex::new(0);
    index.insert("a.doc", &toks(&["the", "bears"]));
    let before = sorted(index.lookup(&"bears".to_string()));
    index.insert("b.doc", &toks(&["bears", "camp", "bears"]));
    assert_eq!(sorted(index.lookup(&"bears".to_string())), vec!["a.doc", "b.doc"]);
    index.remove("b.doc");
    assert_eq!(sorted(index.lookup(&"bears".to_string())), before);
    assert!(index.lookup(&"camp".to_string()).is_empty());
    assert_eq!(index.lookup(&"the".to_string()), vec!["a.doc"]);
}

#[test]
fn insert_is_idempotent() {
    let mut index = InvertedIndex::new(0);
    index.insert("a.doc", &toks(&["bears"]));
    index.insert("a.doc", &toks(&["bears", "bears"]));
    assert_eq!(index.entries().len(), 1);
    assert!(index.contains(&"bears".to_string(), &"a.doc".to_string()));
    assert!(!index.contains(&"bears".to_string(), &"b.doc".to_string()));
}

#[test]
fn unknown_token_has_empty_posting() {
    let index = InvertedIndex::new(0);
    assert!(index.lookup(&"nothing".to_string()).is_empty());
    assert!(index.search_tokens(&toks(&["nothing"])).is_empty());
}

#[test]
fn entries_round_trip() {
    let index = build_index(&scenario(), &layout(), 100);
    let copy = InvertedIndex::from_entries(index.entries(), index.last_update());
    assert_eq!(copy.last_update(), 100);
    assert_eq!(sorted(search(&copy, "bears")), vec!["a.doc", "b.doc"]);
    assert_eq!(copy.entries().len(), index.entries().len());
}

#[test]
fn reindexing_one_document_replaces_its_tokens() {
    let mut index = build_index(&scenario(), &layout(), 100);
    index_document(&mut index, &doc("b.doc", Some(1), Some("#+title: Unicorns")));
    assert_eq!(search(&index, "unicorns"), vec!["b.doc"]);
    assert!(search(&index, "camp").is_empty());
    assert_eq!(index.last_update(), 100);
}

#[test]
fn search_tokens_takes_tokens_as_given() {
    let index = build_index(&scenario(), &layout(), 100);
    assert!(index.search_tokens(&toks(&["Bears"])).is_empty());
    assert_eq!(sorted(index.search_tokens(&toks(&["bears"]))), vec!["a.doc", "b.doc"]);
}

#[test]
fn reindexing_twice_changes_nothing_more() {
    let mut index = build_index(&scenario(), &layout(), 100);
    let d = doc("a.doc", Some(5), Some("#+title: Bears Bears Den"));
    index_document(&mut index, &d);
    let once = sorted(index.entries().into_iter().map(|(t, p)| format!("{}\t{}", t, p)).collect());
    index_document(&mut index, &d);
    let twice = sorted(index.entries().into_iter().map(|(t, p)| format!("{}\t{}", t, p)).collect());
    assert_eq!(once, twice);
    assert!(search(&index, "the").is_empty());
}
