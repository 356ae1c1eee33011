use xiaolin_agent::lsp_actions::{
    count_unique_files, format_action_result_for_prompt, has_lsp_support,
    lsp_server_for_extension, ActionItem, ActionResult, CodeAction, Diagnostic,
    DiagnosticSeverity, Location, LspActionsConfig, TextEdit,
};

fn edit(file: &str, line: u32, text: &str) -> TextEdit {
    TextEdit {
        file: file.into(),
        start_line: line,
        start_col: 0,
        end_line: line,
        end_col: 5,
        new_text: text.into(),
    }
}

#[test]
fn has_lsp_support_common_extensions() {
    assert!(has_lsp_support("main.rs"));
    assert!(has_lsp_support("app.tsx"));
    assert!(has_lsp_support("utils.py"));
    assert!(has_lsp_support("server.go"));
    assert!(!has_lsp_support("readme.md"));
    assert!(!has_lsp_support("data.csv"));
}

#[test]
fn lsp_server_for_common_extensions() {
    assert_eq!(lsp_server_for_extension("rs"), Some("rust-analyzer"));
    assert_eq!(
        lsp_server_for_extension("ts"),
        Some("typescript-language-server")
    );
    assert_eq!(lsp_server_for_extension("py"), Some("pyright-langserver"));
    assert_eq!(lsp_server_for_extension("go"), Some("gopls"));
    assert_eq!(lsp_server_for_extension("md"), None);
}

#[test]
fn format_rename_result() {
    let action = CodeAction::Rename {
        file: "src/main.rs".into(),
        line: 10,
        column: 5,
        new_name: "new_name".into(),
    };
    let result = ActionResult::Edits(vec![
        TextEdit {
            file: "src/main.rs".into(),
            start_line: 10,
            start_col: 5,
            end_line: 10,
            end_col: 13,
            new_text: "new_name".into(),
        },
        TextEdit {
            file: "src/lib.rs".into(),
            start_line: 25,
            start_col: 10,
            end_line: 25,
            end_col: 18,
            new_text: "new_name".into(),
        },
    ]);

    let formatted = format_action_result_for_prompt(&action, &result);
    assert!(formatted.contains("Rename completed"));
    assert!(formatted.contains("2 file(s) modified"));
    assert!(formatted.contains("src/main.rs"));
    assert!(formatted.contains("src/lib.rs"));
}

#[test]
fn format_diagnostics_result() {
    let action = CodeAction::GetDiagnostics {
        file: "src/main.rs".into(),
    };
    let result = ActionResult::Diagnostics(vec![
        Diagnostic {
            file: "src/main.rs".into(),
            line: 42,
            column: 5,
            severity: DiagnosticSeverity::Error,
            message: "type mismatch".into(),
            code: Some("E0308".into()),
        },
        Diagnostic {
            file: "src/main.rs".into(),
            line: 55,
            column: 1,
            severity: DiagnosticSeverity::Warning,
            message: "unused variable".into(),
            code: None,
        },
    ]);

    let formatted = format_action_result_for_prompt(&action, &result);
    assert!(formatted.contains("1 error(s), 1 warning(s)"));
    assert!(formatted.contains("type mismatch"));
    assert!(formatted.contains("unused variable"));
}

#[test]
fn format_not_supported() {
    let action = CodeAction::Rename {
        file: "readme.md".into(),
        line: 1,
        column: 1,
        new_name: "x".into(),
    };
    let result = ActionResult::NotSupported("No LSP server for .md files".into());
    let formatted = format_action_result_for_prompt(&action, &result);
    assert!(formatted.contains("not supported"));
}

#[test]
fn count_unique_files_deduplicates() {
    let edits = vec![
        TextEdit {
            file: "a.rs".into(),
            start_line: 1,
            start_col: 0,
            end_line: 1,
            end_col: 5,
            new_text: "x".into(),
        },
        TextEdit {
            file: "a.rs".into(),
            start_line: 2,
            start_col: 0,
            end_line: 2,
            end_col: 5,
            new_text: "y".into(),
        },
        TextEdit {
            file: "b.rs".into(),
            start_line: 1,
            start_col: 0,
            end_line: 1,
            end_col: 5,
            new_text: "z".into(),
        },
    ];
    assert_eq!(count_unique_files(&edits), 2);
}

#[test]
fn hidden_files_and_paths_have_no_extension() {
    assert!(!has_lsp_support(".rs"));
    assert!(!has_lsp_support("Makefile"));
    assert!(has_lsp_support("/home/user/project/src/lib.rs"));
    assert!(has_lsp_support("archive.tar.go"));
    assert!(!has_lsp_support("src/"));
}

#[test]
fn every_supported_extension_has_a_server() {
    for ext in [
        "rs", "ts", "tsx", "js", "jsx", "py", "go", "java", "kt", "c", "cpp", "h", "hpp", "cs",
        "rb", "swift", "vue", "svelte",
    ] {
        assert!(lsp_server_for_extension(ext).is_some());
        assert!(has_lsp_support(&format!("file.{}", ext)));
    }
    assert_eq!(lsp_server_for_extension("kt"), Some("jdtls"));
    assert_eq!(lsp_server_for_extension("hpp"), Some("clangd"));
    assert_eq!(lsp_server_for_extension("svelte"), Some("svelte-language-server"));
}

#[test]
fn edits_beyond_ten_are_summarised_and_text_truncated() {
    let mut edits = Vec::new();
    for i in 0..12u32 {
        edits.push(edit("same.rs", i, "short"));
    }
    edits[0].new_text = format!("{}\nsecond line", "x".repeat(70));
    let action = CodeAction::Format { file: "same.rs".into() };
    let formatted = format_action_result_for_prompt(&action, &ActionResult::Edits(edits));
    assert!(formatted.starts_with("\u{2705} Format completed \u{2014} 1 file(s) modified:\n"));
    assert!(formatted.contains(&format!("  same.rs:0:0 \u{2192} {}...\n", "x".repeat(57))));
    assert!(formatted.contains("  same.rs:9:0 \u{2192} short\n"));
    assert!(!formatted.contains("same.rs:10:0"));
    assert!(formatted.ends_with("  ... and 2 more edits\n"));
}

#[test]
fn crlf_first_line_is_stripped() {
    let action = CodeAction::OrganizeImports { file: "a.rs".into() };
    let result = ActionResult::Edits(vec![edit("a.rs", 3, "use x;\r\nuse y;")]);
    let formatted = format_action_result_for_prompt(&action, &result);
    assert_eq!(
        formatted,
        "\u{2705} Organize imports completed \u{2014} 1 file(s) modified:\n  a.rs:3:0 \u{2192} use x;\n"
    );
}

#[test]
fn locations_are_listed_up_to_fifteen() {
    let locs: Vec<Location> = (0..17u32)
        .map(|i| Location { file: "f.rs".into(), line: i, column: 2 })
        .collect();
    let action = CodeAction::FindReferences { file: "f.rs".into(), line: 1, column: 1 };
    let formatted = format_action_result_for_prompt(&action, &ActionResult::Locations(locs));
    assert!(formatted.starts_with("Found 17 reference(s):\n  f.rs:0:2\n"));
    assert!(formatted.contains("  f.rs:14:2\n"));
    assert!(!formatted.contains("f.rs:15:2"));
    assert!(formatted.ends_with("  ... and 2 more\n"));
}

#[test]
fn available_actions_show_kind_and_preference() {
    let items = vec![
        ActionItem { title: "Extract function".into(), kind: Some("refactor".into()), is_preferred: true },
        ActionItem { title: "Fix import".into(), kind: None, is_preferred: false },
    ];
    let action = CodeAction::AvailableActions { file: "a.rs".into(), line: 1, column: 1 };
    let formatted = format_action_result_for_prompt(&action, &ActionResult::Actions(items));
    assert_eq!(
        formatted,
        "Available code actions (2):\n  \u{2022} Extract function (refactor) [preferred]\n  \u{2022} Fix import ()\n"
    );
}

#[test]
fn diagnostic_icons_and_error_result() {
    let diags = vec![Diagnostic {
        file: "a.rs".into(),
        line: 3,
        column: 4,
        severity: DiagnosticSeverity::Hint,
        message: "consider".into(),
        code: None,
    }];
    let action = CodeAction::GetDiagnostics { file: "a.rs".into() };
    let formatted = format_action_result_for_prompt(&action, &ActionResult::Diagnostics(diags));
    assert_eq!(
        formatted,
        "Diagnostics: 0 error(s), 0 warning(s)\n  \u{1f4a1} 3:4 \u{2014} consider\n"
    );
    let err = format_action_result_for_prompt(&action, &ActionResult::Error("boom".into()));
    assert_eq!(err, "\u{274c} LSP error: boom\n");
}

#[test]
fn lsp_config_defaults() {
    let c = LspActionsConfig::default();
    assert!(c.enabled);
    assert_eq!(c.timeout_ms, 10_000);
    assert!(c.format_after_action);
}
