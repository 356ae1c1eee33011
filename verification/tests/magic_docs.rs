use xiaolin_agent::magic_docs::{extract_headers, DocIndex, MagicDocsConfig};

fn index_of(docs: &[(&str, &str)]) -> DocIndex {
    let mut index = DocIndex::new();
    for (id, content) in docs {
        index.add_entry(id.to_string(), content.to_string(), format!("/docs/{}.md", id));
    }
    index
}

#[test]
fn empty_index_is_empty() {
    let index = DocIndex::new();
    assert!(index.is_empty());
    assert_eq!(index.entry_count(), 0);
    assert!(index.search("anything here").is_empty());
    assert!(index.select_for_injection("anything here", 4000).is_none());
}

#[test]
fn search_ranks_by_hits() {
    let index = index_of(&[
        ("tokio-guide", "# Tokio Runtime\n\n## Spawning Tasks\n\nUse `tokio::spawn` to run async tasks.\n"),
        ("serde-tips", "# Serde Serialization\n\n## Custom Deserialize\n\nImplement `Deserialize` trait.\n"),
    ]);
    assert_eq!(index.entry_count(), 2);
    let results = index.search("tokio spawn");
    assert!(!results.is_empty());
    assert_eq!(results[0].id, "tokio-guide");
    assert_eq!(results.len(), 1);
}

#[test]
fn injection_truncates_long_documents() {
    let long_content = format!("# API Reference\n\n{}\n", "x".repeat(10000));
    let index = index_of(&[("api-ref", long_content.as_str())]);
    let injection = index.select_for_injection("api reference", 500);
    assert!(injection.is_some());
    let text = injection.unwrap();
    assert!(text.len() <= 600);
    assert!(text.contains("API Reference"));
    assert_eq!(
        text,
        "## Relevant Documentation\n\n### API Reference (api-ref)\n\n# API Reference\n...\n\n\n"
    );
}

#[test]
fn unmatched_query_gives_no_injection() {
    let index = index_of(&[("rust-guide", "# Rust Basics\n\n## Ownership\n\nRust has ownership rules.\n")]);
    assert!(index.select_for_injection("kubernetes helm", 4000).is_none());
    assert!(index.search("to be").is_empty());
}

#[test]
fn headers_and_titles() {
    let headers = extract_headers("intro\n# One\n##   Two  \n#\nnot # header\r\n### Three\r\n");
    assert_eq!(headers, vec!["One", "Two", "Three"]);
    let index = index_of(&[("plain-notes", "no headers at all")]);
    let results = index.search("plain");
    assert_eq!(results.len(), 1);
    assert_eq!(results[0].title, "plain-notes");
    assert_eq!(results[0].char_count, 17);
    assert_eq!(results[0].source_path, "/docs/plain-notes.md");
}

#[test]
fn equal_scores_keep_insertion_order() {
    let index = index_of(&[
        ("alpha-doc", "# Widget\n"),
        ("beta-doc", "# Widget\n"),
        ("gamma-doc", "# Widget Widget\n"),
    ]);
    let results = index.search("widget");
    let ids: Vec<&str> = results.iter().map(|e| e.id.as_str()).collect();
    assert_eq!(ids, vec!["gamma-doc", "alpha-doc", "beta-doc"]);
}

#[test]
fn small_budget_injects_nothing() {
    let index = index_of(&[("tiny", "# Tiny\nsmall text\n")]);
    assert!(index.select_for_injection("tiny", 100).is_none());
    let some = index.select_for_injection("tiny", 200).unwrap();
    assert_eq!(some, "## Relevant Documentation\n\n### Tiny (tiny)\n\n# Tiny\nsmall text\n\n\n");
}

#[test]
fn docs_config_for_dir() {
    let c = MagicDocsConfig::new("/home/u/.xiaolin/docs".into());
    assert!(c.enabled);
    assert_eq!(c.max_injection_chars, 4000);
    assert_eq!(c.docs_dir, "/home/u/.xiaolin/docs");
}
