use xiaolin_agent::context_assembly::{
    detect_project_hints, discover_related_files, extract_keywords, looks_like_file_path,
    mentioned_file_paths, project_indicator_files, task_config_files, AssembledContext,
    Candidate, ContextAssemblyConfig, TaskType,
};

#[test]
fn extract_keywords_filters_stop_words() {
    let keywords =
        extract_keywords("please help me fix the authentication bug in the login module");
    assert!(!keywords.contains(&"please".to_string()));
    assert!(!keywords.contains(&"the".to_string()));
    assert!(
        keywords.contains(&"fix".to_string())
            || keywords.contains(&"authentication".to_string())
    );
    assert!(keywords.contains(&"authentication".to_string()));
    assert!(keywords.contains(&"login".to_string()));
    assert!(keywords.contains(&"module".to_string()));
}

#[test]
fn extract_keywords_handles_technical_terms() {
    let keywords = extract_keywords("implement rate-limiting middleware for the Express.js API");
    assert!(keywords.contains(&"rate-limiting".to_string()));
    assert!(keywords.contains(&"middleware".to_string()));
    assert!(keywords.contains(&"Express.js".to_string()));
}

#[test]
fn extract_keywords_limits_count() {
    let long_msg =
        "word1 word2 word3 word4 word5 word6 word7 word8 word9 word10 word11 word12 word13";
    let keywords = extract_keywords(long_msg);
    assert!(keywords.len() <= 10);
}

#[test]
fn looks_like_file_path_basic() {
    assert!(looks_like_file_path("src/main.rs"));
    assert!(looks_like_file_path("package.json"));
    assert!(looks_like_file_path("tests/unit/auth.test.ts"));
    assert!(!looks_like_file_path("hello"));
    assert!(!looks_like_file_path("https://example.com"));
    assert!(!looks_like_file_path("a"));
    assert!(!looks_like_file_path("// comment"));
}

#[test]
fn assembled_context_empty_check() {
    let ctx = AssembledContext::default();
    assert!(ctx.is_empty());
    assert!(ctx.format_for_prompt().is_none());
}

#[test]
fn assembled_context_formats_correctly() {
    let ctx = AssembledContext {
        facts: vec![
            "User prefers TypeScript".into(),
            "Project uses React 18".into(),
        ],
        docs_snippet: Some("React hooks documentation excerpt...".into()),
        related_files: vec![String::from("src/App.tsx"), String::from("tsconfig.json")],
        project_hints: vec!["TypeScript project".into(), "Test framework: Jest".into()],
        total_chars: 200,
    };

    let formatted = ctx.format_for_prompt().unwrap();
    assert!(formatted.contains("TypeScript project"));
    assert!(formatted.contains("User prefers TypeScript"));
    assert!(formatted.contains("src/App.tsx"));
    assert!(formatted.contains("React hooks"));
}

#[test]
fn detect_project_hints_empty_dir() {
    let hints = detect_project_hints(&[]);
    assert!(hints.is_empty());
}

#[test]
fn keywords_are_exact_and_ordered() {
    let keywords = extract_keywords("The Parser fails on UTF-8 input, see parser.rs");
    assert_eq!(keywords, vec!["Parser", "fails", "UTF-8", "input", "see", "parser.rs"]);
    let ten = extract_keywords("aaa bbb ccc ddd eee fff ggg hhh iii jjj kkk lll");
    assert_eq!(ten.len(), 10);
    assert_eq!(ten[9], "jjj");
    assert!(extract_keywords("").is_empty());
    assert!(extract_keywords("THE Would YOUR").is_empty());
}

#[test]
fn path_heuristic_edges() {
    assert!(!looks_like_file_path("ab"));
    assert!(looks_like_file_path("a/b"));
    assert!(!looks_like_file_path("http.rs"));
    assert!(!looks_like_file_path("src/ma in.rs"));
    assert!(!looks_like_file_path(&format!("{}.rs", "x".repeat(198))));
    assert!(looks_like_file_path(&format!("{}.rs", "x".repeat(197))));
}

#[test]
fn project_hints_follow_indicator_order() {
    let found = vec![String::from("jest.config.ts"), String::from("Cargo.toml"), String::from("Makefile")];
    let hints = detect_project_hints(&found);
    assert_eq!(hints, vec!["Rust project (Cargo)", "Has Makefile", "Test framework: Jest"]);
    assert_eq!(project_indicator_files().len(), 20);
    assert_eq!(project_indicator_files()[10], (".github/workflows", "Has GitHub Actions CI"));
}

#[test]
fn mentioned_paths_are_trimmed() {
    let paths = mentioned_file_paths("look at 'src/lib.rs', `Cargo.toml` and http://x.io or notes");
    assert_eq!(paths, vec!["src/lib.rs", "Cargo.toml"]);
}

#[test]
fn related_files_for_coding_take_first_new_config() {
    let mentioned = vec![
        Candidate { path: "/w/src/lib.rs".into(), exists: true },
        Candidate { path: "/w/missing.rs".into(), exists: false },
        Candidate { path: "/w/Cargo.toml".into(), exists: true },
    ];
    let configs: Vec<Candidate> = task_config_files(TaskType::Coding)
        .into_iter()
        .map(|c| Candidate { path: format!("/w/{}", c), exists: c != "tsconfig.json" })
        .collect();
    let files = discover_related_files(TaskType::Coding, &mentioned, &configs, 5);
    assert_eq!(files, vec!["/w/src/lib.rs", "/w/Cargo.toml", "/w/package.json"]);
    let capped = discover_related_files(TaskType::Coding, &mentioned, &configs, 1);
    assert_eq!(capped, vec!["/w/src/lib.rs"]);
}

#[test]
fn related_files_for_workflow_take_all_configs() {
    let configs: Vec<Candidate> = task_config_files(TaskType::Workflow)
        .into_iter()
        .map(|c| Candidate { path: format!("/w/{}", c), exists: true })
        .collect();
    let files = discover_related_files(TaskType::Workflow, &[], &configs, 3);
    assert_eq!(
        files,
        vec!["/w/.github/workflows/ci.yml", "/w/.github/workflows/main.yml", "/w/Makefile"]
    );
    let none = discover_related_files(TaskType::Writing, &[], &configs, 3);
    assert!(none.is_empty());
    assert!(task_config_files(TaskType::General).is_empty());
}

#[test]
fn context_block_layout() {
    let ctx = AssembledContext {
        facts: vec![],
        docs_snippet: None,
        related_files: vec![],
        project_hints: vec!["Go project".into()],
        total_chars: 0,
    };
    let block = ctx.format_for_prompt().unwrap();
    assert!(block.starts_with("\u{2500}\u{2500}\u{2500} Context "));
    assert!(block.contains("\nProject:\n  \u{2022} Go project\n\n\u{2500}"));
    assert!(!block.contains("Relevant knowledge"));
    let cfg = ContextAssemblyConfig::default();
    assert!(cfg.enabled && cfg.include_docs);
    assert_eq!(cfg.max_chars, 4000);
}
