use claw_runtime::lsp_discovery::LspServerDescriptor;
use claw_runtime::lsp_registry::{DispatchStep, LspRegistry};
use claw_runtime::lsp_types::{LspDiagnostic, LspServerStatus};

fn diagnostic(
    path: &str,
    line: u32,
    character: u32,
    severity: &str,
    message: &str,
    source: Option<&str>,
) -> LspDiagnostic {
    LspDiagnostic {
        path: path.into(),
        line,
        character,
        severity: severity.into(),
        message: message.into(),
        source: source.map(Into::into),
    }
}

#[test]
fn lsp_client_registers_and_retrieves_server() {
    let mut registry = LspRegistry::new();
    registry.register(
        "rust",
        LspServerStatus::Connected,
        Some("/workspace"),
        vec!["hover".into(), "completion".into()],
    );

    let server = registry.get("rust").expect("should exist");
    assert_eq!(server.language, "rust");
    assert_eq!(server.status, LspServerStatus::Connected);
    assert_eq!(server.capabilities.len(), 2);
}

#[test]
fn lsp_client_finds_server_by_file_extension() {
    let mut registry = LspRegistry::new();
    registry.register("rust", LspServerStatus::Connected, None, vec![]);
    registry.register("typescript", LspServerStatus::Connected, None, vec![]);

    let rs_server = registry.find_server_for_path("src/main.rs").unwrap();
    assert_eq!(rs_server.language, "rust");

    let ts_server = registry.find_server_for_path("src/index.ts").unwrap();
    assert_eq!(ts_server.language, "typescript");

    assert!(registry.find_server_for_path("data.csv").is_none());
}

#[test]
fn lsp_client_manages_diagnostics() {
    let mut registry = LspRegistry::new();
    registry.register("rust", LspServerStatus::Connected, None, vec![]);

    registry
        .add_diagnostics(
            "rust",
            vec![diagnostic("src/main.rs", 10, 5, "error", "mismatched types", Some("rust-analyzer"))],
        )
        .unwrap();

    let diags = registry.get_diagnostics("src/main.rs");
    assert_eq!(diags.len(), 1);
    assert_eq!(diags[0].message, "mismatched types");

    registry.clear_diagnostics("rust").unwrap();
    assert!(registry.get_diagnostics("src/main.rs").is_empty());
}

#[test]
fn lsp_client_dispatches_diagnostics_action() {
    let mut registry = LspRegistry::new();
    registry.register("rust", LspServerStatus::Connected, None, vec![]);
    registry
        .add_diagnostics(
            "rust",
            vec![diagnostic("src/lib.rs", 1, 0, "warning", "unused import", None)],
        )
        .unwrap();

    let result = registry
        .dispatch("diagnostics", Some("src/lib.rs"), None, None, None)
        .unwrap();
    match result {
        DispatchStep::Diagnostics { path, diagnostics } => {
            assert_eq!(path.as_deref(), Some("src/lib.rs"));
            assert_eq!(diagnostics.len(), 1);
        }
        _ => panic!("diagnostics are answered from the cache"),
    }
}

#[test]
fn lsp_client_dispatches_hover_action() {
    let mut registry = LspRegistry::new();
    registry.register("rust", LspServerStatus::Connected, None, vec![]);

    let step = registry
        .dispatch("hover", Some("src/main.rs"), Some(10), Some(5), None)
        .unwrap();
    let pending = match step {
        DispatchStep::Start(pending) => pending,
        _ => panic!("a server without a process is started first"),
    };
    let result = registry
        .resume_dispatch(pending, Err("no LSP server descriptor found for language: rust".to_string()))
        .unwrap();
    match result {
        DispatchStep::StartFailed { pending, error } => {
            assert_eq!(pending.name, "hover");
            assert_eq!(pending.language, "rust");
            assert_eq!(pending.line, Some(10));
            assert_eq!(pending.character, Some(5));
            assert!(error.contains("rust"));
        }
        _ => panic!("a failed start on a connected server is reported"),
    }
}

#[test]
fn lsp_client_rejects_action_on_disconnected_server() {
    let mut registry = LspRegistry::new();
    registry.register("rust", LspServerStatus::Disconnected, None, vec![]);

    assert!(registry
        .dispatch("hover", Some("src/main.rs"), Some(1), Some(0), None)
        .is_err());
}

#[test]
fn lsp_client_rejects_unknown_action() {
    let registry = LspRegistry::new();
    assert!(registry
        .dispatch("unknown_action", Some("file.rs"), None, None, None)
        .is_err());
}

#[test]
fn lsp_client_disconnects_server() {
    let mut registry = LspRegistry::new();
    registry.register("rust", LspServerStatus::Connected, None, vec![]);
    assert_eq!(registry.len(), 1);

    let removed = registry.disconnect("rust");
    assert!(removed.is_some());
    assert!(registry.is_empty());
}

#[test]
fn lsp_client_dispatch_diagnostics_without_path_aggregates() {
    // given
    let mut registry = LspRegistry::new();
    registry.register("rust", LspServerStatus::Connected, None, vec![]);
    registry.register("python", LspServerStatus::Connected, None, vec![]);
    registry
        .add_diagnostics(
            "rust",
            vec![diagnostic("src/lib.rs", 1, 0, "warning", "unused import", Some("rust-analyzer"))],
        )
        .expect("rust diagnostics should add");
    registry
        .add_diagnostics(
            "python",
            vec![diagnostic("script.py", 2, 4, "error", "undefined name", Some("pyright"))],
        )
        .expect("python diagnostics should add");

    // when
    let result = registry
        .dispatch("diagnostics", None, None, None, None)
        .expect("aggregate diagnostics should work");

    // then
    match result {
        DispatchStep::Diagnostics { path, diagnostics } => {
            assert!(path.is_none());
            assert_eq!(diagnostics.len(), 2);
        }
        _ => panic!("diagnostics are answered from the cache"),
    }
}

#[test]
fn lsp_client_dispatch_non_diagnostics_requires_path() {
    // given
    let registry = LspRegistry::new();

    // when
    let result = registry.dispatch("hover", None, Some(1), Some(0), None);

    // then
    assert_eq!(
        result.err().expect("path should be required"),
        "path is required for this LSP action"
    );
}

#[test]
fn lsp_client_dispatch_no_server_for_path_errors() {
    // given
    let registry = LspRegistry::new();

    // when
    let result = registry.dispatch("hover", Some("notes.md"), Some(1), Some(0), None);

    // then
    let error = result.err().expect("missing server should fail");
    assert!(error.contains("no LSP server available for path: notes.md"));
}

#[test]
fn lsp_client_dispatch_disconnected_server_error_payload() {
    // given
    let mut registry = LspRegistry::new();
    registry.register("typescript", LspServerStatus::Disconnected, None, vec![]);

    // when
    let result = registry.dispatch("hover", Some("src/index.ts"), Some(3), Some(2), None);

    // then
    let error = result.err().expect("disconnected server should fail");
    assert!(error.contains("typescript"));
    assert!(error.contains("disconnected"));
}

#[test]
fn lsp_client_find_server_for_all_extensions() {
    // given
    let mut registry = LspRegistry::new();
    for language in [
        "rust",
        "typescript",
        "javascript",
        "python",
        "go",
        "java",
        "c",
        "cpp",
        "ruby",
        "lua",
    ] {
        registry.register(language, LspServerStatus::Connected, None, vec![]);
    }
    let cases = [
        ("src/main.rs", "rust"),
        ("src/index.ts", "typescript"),
        ("src/view.tsx", "typescript"),
        ("src/app.js", "javascript"),
        ("src/app.jsx", "javascript"),
        ("script.py", "python"),
        ("main.go", "go"),
        ("Main.java", "java"),
        ("native.c", "c"),
        ("native.h", "c"),
        ("native.cpp", "cpp"),
        ("native.hpp", "cpp"),
        ("native.cc", "cpp"),
        ("script.rb", "ruby"),
        ("script.lua", "lua"),
    ];

    // when
    let resolved: Vec<_> = cases
        .into_iter()
        .map(|(path, expected)| {
            (
                path,
                registry
                    .find_server_for_path(path)
                    .map(|server| server.language),
                expected,
            )
        })
        .collect();

    // then
    for (path, actual, expected) in resolved {
        assert_eq!(
            actual.as_deref(),
            Some(expected),
            "unexpected mapping for {path}"
        );
    }
}

#[test]
fn lsp_client_find_server_for_path_no_extension() {
    // given
    let mut registry = LspRegistry::new();
    registry.register("rust", LspServerStatus::Connected, None, vec![]);

    // when
    let result = registry.find_server_for_path("Makefile");

    // then
    assert!(result.is_none());
}

#[test]
fn lsp_client_list_servers_with_multiple() {
    // given
    let mut registry = LspRegistry::new();
    registry.register("rust", LspServerStatus::Connected, None, vec![]);
    registry.register("typescript", LspServerStatus::Starting, None, vec![]);
    registry.register("python", LspServerStatus::Error, None, vec![]);

    // when
    let servers = registry.list_servers();

    // then
    assert_eq!(servers.len(), 3);
    assert!(servers.iter().any(|server| server.language == "rust"));
    assert!(servers.iter().any(|server| server.language == "typescript"));
    assert!(servers.iter().any(|server| server.language == "python"));
}

#[test]
fn lsp_client_get_missing_server_returns_none() {
    // given
    let registry = LspRegistry::new();

    // when
    let server = registry.get("missing");

    // then
    assert!(server.is_none());
}

#[test]
fn lsp_client_add_diagnostics_missing_language_errors() {
    // given
    let mut registry = LspRegistry::new();

    // when
    let result = registry.add_diagnostics("missing", vec![]);

    // then
    let error = result.expect_err("missing language should fail");
    assert!(error.contains("LSP server not found for language: missing"));
}

#[test]
fn lsp_client_get_diagnostics_across_servers() {
    // given
    let mut registry = LspRegistry::new();
    let shared_path = "shared/file.txt";
    registry.register("rust", LspServerStatus::Connected, None, vec![]);
    registry.register("python", LspServerStatus::Connected, None, vec![]);
    registry
        .add_diagnostics("rust", vec![diagnostic(shared_path, 4, 1, "warning", "warn", None)])
        .expect("rust diagnostics should add");
    registry
        .add_diagnostics("python", vec![diagnostic(shared_path, 8, 3, "error", "err", None)])
        .expect("python diagnostics should add");

    // when
    let diagnostics = registry.get_diagnostics(shared_path);

    // then
    assert_eq!(diagnostics.len(), 2);
    assert!(diagnostics
        .iter()
        .any(|diagnostic| diagnostic.message == "warn"));
    assert!(diagnostics
        .iter()
        .any(|diagnostic| diagnostic.message == "err"));
}

#[test]
fn lsp_client_clear_diagnostics_missing_language_errors() {
    // given
    let mut registry = LspRegistry::new();

    // when
    let result = registry.clear_diagnostics("missing");

    // then
    let error = result.expect_err("missing language should fail");
    assert!(error.contains("LSP server not found for language: missing"));
}

#[test]
fn lsp_client_register_with_descriptor_stores_entry() {
    let mut registry = LspRegistry::new();
    let descriptor = LspServerDescriptor {
        language: "rust".into(),
        command: "rust-analyzer".into(),
        args: vec![],
        extensions: vec!["rs".into()],
        install_hint: vec![],
    };
    registry.register_with_descriptor(
        "rust",
        LspServerStatus::Connected,
        Some("/project"),
        vec!["hover".into()],
        descriptor,
    );

    let server = registry.get("rust").expect("should exist after register_with_descriptor");
    assert_eq!(server.language, "rust");
    assert_eq!(server.status, LspServerStatus::Connected);
    assert_eq!(server.root_path.as_deref(), Some("/project"));
    assert_eq!(server.capabilities, vec!["hover"]);
}

#[test]
fn lsp_client_stop_server_on_nonexistent_errors() {
    let mut registry = LspRegistry::new();
    let result = registry.stop_server("missing");
    assert!(result.is_err(), "stopping a nonexistent server should error");
    let error = result.unwrap_err();
    assert!(error.contains("missing"), "error message should reference 'missing', got: {error}");
}

#[test]
fn tests_registers_and_retrieves_server() {
    let mut registry = LspRegistry::new();
    registry.register(
        "rust",
        LspServerStatus::Connected,
        Some("/workspace"),
        vec!["hover".into(), "completion".into()],
    );

    let server = registry.get("rust").expect("should exist");
    assert_eq!(server.language, "rust");
    assert_eq!(server.status, LspServerStatus::Connected);
    assert_eq!(server.capabilities.len(), 2);
}

#[test]
fn tests_finds_server_by_file_extension() {
    let mut registry = LspRegistry::new();
    registry.register("rust", LspServerStatus::Connected, None, vec![]);
    registry.register("typescript", LspServerStatus::Connected, None, vec![]);

    let rs_server = registry.find_server_for_path("src/main.rs").unwrap();
    assert_eq!(rs_server.language, "rust");

    let ts_server = registry.find_server_for_path("src/index.ts").unwrap();
    assert_eq!(ts_server.language, "typescript");

    assert!(registry.find_server_for_path("data.csv").is_none());
}

#[test]
fn tests_manages_diagnostics() {
    let mut registry = LspRegistry::new();
    registry.register("rust", LspServerStatus::Connected, None, vec![]);

    registry
        .add_diagnostics(
            "rust",
            vec![diagnostic("src/main.rs", 10, 5, "error", "mismatched types", Some("rust-analyzer"))],
        )
        .unwrap();

    let diags = registry.get_diagnostics("src/main.rs");
    assert_eq!(diags.len(), 1);
    assert_eq!(diags[0].message, "mismatched types");

    registry.clear_diagnostics("rust").unwrap();
    assert!(registry.get_diagnostics("src/main.rs").is_empty());
}

#[test]
fn tests_dispatches_diagnostics_action() {
    let mut registry = LspRegistry::new();
    registry.register("rust", LspServerStatus::Connected, None, vec![]);
    registry
        .add_diagnostics(
            "rust",
            vec![diagnostic("src/lib.rs", 1, 0, "warning", "unused import", None)],
        )
        .unwrap();

    let result = registry
        .dispatch("diagnostics", Some("src/lib.rs"), None, None, None)
        .unwrap();
    match result {
        DispatchStep::Diagnostics { path, diagnostics } => {
            assert_eq!(path.as_deref(), Some("src/lib.rs"));
            assert_eq!(diagnostics.len(), 1);
        }
        _ => panic!("diagnostics are answered from the cache"),
    }
}

#[test]
fn tests_dispatches_hover_action() {
    let mut registry = LspRegistry::new();
    registry.register("rust", LspServerStatus::Connected, None, vec![]);

    let step = registry
        .dispatch("hover", Some("src/main.rs"), Some(10), Some(5), None)
        .unwrap();
    let pending = match step {
        DispatchStep::Start(pending) => pending,
        _ => panic!("a server without a process is started first"),
    };
    let result = registry
        .resume_dispatch(pending, Err("no LSP server descriptor found for language: rust".to_string()))
        .unwrap();
    match result {
        DispatchStep::StartFailed { pending, error } => {
            assert_eq!(pending.name, "hover");
            assert_eq!(pending.language, "rust");
            assert_eq!(pending.line, Some(10));
            assert_eq!(pending.character, Some(5));
            assert!(error.contains("rust"));
        }
        _ => panic!("a failed start on a connected server is reported"),
    }
}

#[test]
fn tests_rejects_action_on_disconnected_server() {
    let mut registry = LspRegistry::new();
    registry.register("rust", LspServerStatus::Disconnected, None, vec![]);

    assert!(registry
        .dispatch("hover", Some("src/main.rs"), Some(1), Some(0), None)
        .is_err());
}

#[test]
fn tests_rejects_unknown_action() {
    let registry = LspRegistry::new();
    assert!(registry
        .dispatch("unknown_action", Some("file.rs"), None, None, None)
        .is_err());
}

#[test]
fn tests_disconnects_server() {
    let mut registry = LspRegistry::new();
    registry.register("rust", LspServerStatus::Connected, None, vec![]);
    assert_eq!(registry.len(), 1);

    let removed = registry.disconnect("rust");
    assert!(removed.is_some());
    assert!(registry.is_empty());
}

#[test]
fn tests_dispatch_diagnostics_without_path_aggregates() {
    // given
    let mut registry = LspRegistry::new();
    registry.register("rust", LspServerStatus::Connected, None, vec![]);
    registry.register("python", LspServerStatus::Connected, None, vec![]);
    registry
        .add_diagnostics(
            "rust",
            vec![diagnostic("src/lib.rs", 1, 0, "warning", "unused import", Some("rust-analyzer"))],
        )
        .expect("rust diagnostics should add");
    registry
        .add_diagnostics(
            "python",
            vec![diagnostic("script.py", 2, 4, "error", "undefined name", Some("pyright"))],
        )
        .expect("python diagnostics should add");

    // when
    let result = registry
        .dispatch("diagnostics", None, None, None, None)
        .expect("aggregate diagnostics should work");

    // then
    match result {
        DispatchStep::Diagnostics { path, diagnostics } => {
            assert!(path.is_none());
            assert_eq!(diagnostics.len(), 2);
        }
        _ => panic!("diagnostics are answered from the cache"),
    }
}

#[test]
fn tests_dispatch_non_diagnostics_requires_path() {
    // given
    let registry = LspRegistry::new();

    // when
    let result = registry.dispatch("hover", None, Some(1), Some(0), None);

    // then
    assert_eq!(
        result.err().expect("path should be required"),
        "path is required for this LSP action"
    );
}

#[test]
fn tests_dispatch_no_server_for_path_errors() {
    // given
    let registry = LspRegistry::new();

    // when
    let result = registry.dispatch("hover", Some("notes.md"), Some(1), Some(0), None);

    // then
    let error = result.err().expect("missing server should fail");
    assert!(error.contains("no LSP server available for path: notes.md"));
}

#[test]
fn tests_dispatch_disconnected_server_error_payload() {
    // given
    let mut registry = LspRegistry::new();
    registry.register("typescript", LspServerStatus::Disconnected, None, vec![]);

    // when
    let result = registry.dispatch("hover", Some("src/index.ts"), Some(3), Some(2), None);

    // then
    let error = result.err().expect("disconnected server should fail");
    assert!(error.contains("typescript"));
    assert!(error.contains("disconnected"));
}

#[test]
fn tests_lifecycle_find_server_for_all_extensions() {
    // given
    let mut registry = LspRegistry::new();
    for language in [
        "rust",
        "typescript",
        "javascript",
        "python",
        "go",
        "java",
        "c",
        "cpp",
        "ruby",
        "lua",
    ] {
        registry.register(language, LspServerStatus::Connected, None, vec![]);
    }
    let cases = [
        ("src/main.rs", "rust"),
        ("src/index.ts", "typescript"),
        ("src/view.tsx", "typescript"),
        ("src/app.js", "javascript"),
        ("src/app.jsx", "javascript"),
        ("script.py", "python"),
        ("main.go", "go"),
        ("Main.java", "java"),
        ("native.c", "c"),
        ("native.h", "c"),
        ("native.cpp", "cpp"),
        ("native.hpp", "cpp"),
        ("native.cc", "cpp"),
        ("script.rb", "ruby"),
        ("script.lua", "lua"),
    ];

    // when
    let resolved: Vec<_> = cases
        .into_iter()
        .map(|(path, expected)| {
            (
                path,
                registry
                    .find_server_for_path(path)
                    .map(|server| server.language),
                expected,
            )
        })
        .collect();

    // then
    for (path, actual, expected) in resolved {
        assert_eq!(
            actual.as_deref(),
            Some(expected),
            "unexpected mapping for {path}"
        );
    }
}

#[test]
fn tests_lifecycle_find_server_for_path_no_extension() {
    // given
    let mut registry = LspRegistry::new();
    registry.register("rust", LspServerStatus::Connected, None, vec![]);

    // when
    let result = registry.find_server_for_path("Makefile");

    // then
    assert!(result.is_none());
}

#[test]
fn tests_lifecycle_list_servers_with_multiple() {
    // given
    let mut registry = LspRegistry::new();
    registry.register("rust", LspServerStatus::Connected, None, vec![]);
    registry.register("typescript", LspServerStatus::Starting, None, vec![]);
    registry.register("python", LspServerStatus::Error, None, vec![]);

    // when
    let servers = registry.list_servers();

    // then
    assert_eq!(servers.len(), 3);
    assert!(servers.iter().any(|server| server.language == "rust"));
    assert!(servers.iter().any(|server| server.language == "typescript"));
    assert!(servers.iter().any(|server| server.language == "python"));
}

#[test]
fn tests_lifecycle_get_missing_server_returns_none() {
    // given
    let registry = LspRegistry::new();

    // when
    let server = registry.get("missing");

    // then
    assert!(server.is_none());
}

#[test]
fn tests_lifecycle_add_diagnostics_missing_language_errors() {
    // given
    let mut registry = LspRegistry::new();

    // when
    let result = registry.add_diagnostics("missing", vec![]);

    // then
    let error = result.expect_err("missing language should fail");
    assert!(error.contains("LSP server not found for language: missing"));
}

#[test]
fn tests_lifecycle_get_diagnostics_across_servers() {
    // given
    let mut registry = LspRegistry::new();
    let shared_path = "shared/file.txt";
    registry.register("rust", LspServerStatus::Connected, None, vec![]);
    registry.register("python", LspServerStatus::Connected, None, vec![]);
    registry
        .add_diagnostics("rust", vec![diagnostic(shared_path, 4, 1, "warning", "warn", None)])
        .expect("rust diagnostics should add");
    registry
        .add_diagnostics("python", vec![diagnostic(shared_path, 8, 3, "error", "err", None)])
        .expect("python diagnostics should add");

    // when
    let diagnostics = registry.get_diagnostics(shared_path);

    // then
    assert_eq!(diagnostics.len(), 2);
    assert!(diagnostics
        .iter()
        .any(|diagnostic| diagnostic.message == "warn"));
    assert!(diagnostics
        .iter()
        .any(|diagnostic| diagnostic.message == "err"));
}

#[test]
fn tests_lifecycle_clear_diagnostics_missing_language_errors() {
    // given
    let mut registry = LspRegistry::new();

    // when
    let result = registry.clear_diagnostics("missing");

    // then
    let error = result.expect_err("missing language should fail");
    assert!(error.contains("LSP server not found for language: missing"));
}

#[test]
fn tests_lifecycle_register_with_descriptor_stores_entry() {
    let mut registry = LspRegistry::new();
    let descriptor = LspServerDescriptor {
        language: "rust".into(),
        command: "rust-analyzer".into(),
        args: vec![],
        extensions: vec!["rs".into()],
        install_hint: vec![],
    };
    registry.register_with_descriptor(
        "rust",
        LspServerStatus::Connected,
        Some("/project"),
        vec!["hover".into()],
        descriptor,
    );

    let server = registry.get("rust").expect("should exist after register_with_descriptor");
    assert_eq!(server.language, "rust");
    assert_eq!(server.status, LspServerStatus::Connected);
    assert_eq!(server.root_path.as_deref(), Some("/project"));
    assert_eq!(server.capabilities, vec!["hover"]);
}

#[test]
fn tests_lifecycle_stop_server_on_nonexistent_errors() {
    let mut registry = LspRegistry::new();
    let result = registry.stop_server("missing");
    assert!(result.is_err(), "stopping a nonexistent server should error");
    let error = result.unwrap_err();
    assert!(error.contains("missing"), "error message should reference 'missing', got: {error}");
}

#[test]
fn registering_again_replaces_the_server() {
    let mut registry = LspRegistry::new();
    registry.register("rust", LspServerStatus::Connected, None, vec!["hover".into()]);
    registry.register("python", LspServerStatus::Starting, None, vec![]);
    registry.register("rust", LspServerStatus::Error, Some("/other"), vec![]);
    assert_eq!(registry.len(), 2);
    let rust = registry.get("rust").unwrap();
    assert_eq!(rust.status, LspServerStatus::Error);
    assert_eq!(rust.root_path.as_deref(), Some("/other"));
    assert!(rust.capabilities.is_empty());
    assert_eq!(registry.get("python").unwrap().status, LspServerStatus::Starting);
}

#[test]
fn disconnected_server_is_no_longer_found() {
    let mut registry = LspRegistry::new();
    registry.register("rust", LspServerStatus::Connected, None, vec![]);
    registry.register("go", LspServerStatus::Connected, None, vec![]);
    assert!(registry.disconnect("rust").is_some());
    assert!(registry.get("rust").is_none());
    assert!(registry.find_server_for_path("src/main.rs").is_none());
    assert!(registry.disconnect("rust").is_none());
    assert_eq!(registry.get("go").unwrap().language, "go");
}

#[test]
fn replacing_file_diagnostics_keeps_other_files() {
    let mut registry = LspRegistry::new();
    registry.register("rust", LspServerStatus::Connected, None, vec![]);
    registry
        .add_diagnostics(
            "rust",
            vec![
                diagnostic("a.rs", 1, 0, "error", "old a", None),
                diagnostic("b.rs", 2, 0, "error", "b", None),
            ],
        )
        .unwrap();
    registry.replace_file_diagnostics("rust", "a.rs", vec![diagnostic("a.rs", 3, 1, "warning", "new a", None)]);
    let a = registry.get_diagnostics("a.rs");
    assert_eq!(a.len(), 1);
    assert_eq!(a[0].message, "new a");
    assert_eq!(registry.get_diagnostics("b.rs").len(), 1);
    registry.replace_file_diagnostics("rust", "a.rs", vec![]);
    assert_eq!(registry.get_diagnostics("a.rs")[0].message, "new a");
    assert_eq!(registry.all_diagnostics().len(), 2);
}

#[test]
fn started_server_receives_actions() {
    let mut registry = LspRegistry::new();
    registry.register("rust", LspServerStatus::Starting, None, vec![]);
    let pending = match registry.dispatch("goto_definition", Some("src/lib.rs"), None, None, None).unwrap() {
        DispatchStep::Start(p) => p,
        _ => panic!("the server must be started"),
    };
    assert_eq!(pending.path, "src/lib.rs");
    registry.mark_started("rust");
    let step = registry.resume_dispatch(pending, Ok(())).unwrap();
    assert!(matches!(step, DispatchStep::Invoke(_)));
    match registry.dispatch("hover", Some("src/lib.rs"), Some(2), None, None).unwrap() {
        DispatchStep::Invoke(p) => {
            assert_eq!(p.language, "rust");
            assert_eq!(p.line, Some(2));
        }
        _ => panic!("a running server receives the action"),
    }
    assert_eq!(registry.stop_server("rust"), Ok(true));
    assert_eq!(registry.get("rust").unwrap().status, LspServerStatus::Disconnected);
    let err = registry.dispatch("hover", Some("src/lib.rs"), None, None, None).err().unwrap();
    assert_eq!(err, "LSP server for 'rust' is not connected (status: disconnected)");
}

#[test]
fn failed_start_on_disconnected_server_is_an_error() {
    let mut registry = LspRegistry::new();
    registry.register("rust", LspServerStatus::Starting, None, vec![]);
    let pending = match registry.dispatch("hover", Some("a.rs"), None, None, None).unwrap() {
        DispatchStep::Start(p) => p,
        _ => panic!("the server must be started"),
    };
    let err = registry.resume_dispatch(pending, Err("boom".to_string())).err().unwrap();
    assert_eq!(err, "LSP server for 'rust' is not connected (status: starting): boom");
}

#[test]
fn workspace_symbols_need_a_server() {
    let mut registry = LspRegistry::new();
    let err = registry.dispatch("workspace_symbols", None, None, None, Some("main")).err().unwrap();
    assert_eq!(err, "no LSP servers available for workspace symbols");
    registry.register("go", LspServerStatus::Connected, None, vec![]);
    match registry.dispatch("workspace_symbols", None, None, None, Some("main")).unwrap() {
        DispatchStep::Start(p) => {
            assert_eq!(p.language, "go");
            assert_eq!(p.path, "");
            assert_eq!(p.query.as_deref(), Some("main"));
        }
        _ => panic!("the server must be started"),
    }
}

#[test]
fn start_descriptor_prefers_registered_then_available() {
    let mut registry = LspRegistry::new();
    let own = LspServerDescriptor {
        language: "rust".into(),
        command: "my-analyzer".into(),
        args: vec![],
        extensions: vec!["rs".into()],
        install_hint: vec![],
    };
    let found = LspServerDescriptor {
        language: "go".into(),
        command: "gopls".into(),
        args: vec![],
        extensions: vec!["go".into()],
        install_hint: vec![],
    };
    registry.register_with_descriptor("rust", LspServerStatus::Starting, None, vec![], own);
    registry.register("go", LspServerStatus::Starting, None, vec![]);
    let available = vec![found];
    assert_eq!(registry.start_descriptor("rust", &available).unwrap().unwrap().command, "my-analyzer");
    assert_eq!(registry.start_descriptor("go", &available).unwrap().unwrap().command, "gopls");
    assert_eq!(
        registry.start_descriptor("lua", &available).err().unwrap(),
        "no LSP server descriptor found for language: lua"
    );
    registry.mark_started("go");
    assert!(registry.start_descriptor("go", &available).unwrap().is_none());
}

#[test]
fn open_files_are_remembered_once() {
    let mut registry = LspRegistry::new();
    assert!(!registry.is_open("a.rs"));
    registry.mark_open("a.rs");
    registry.mark_open("a.rs");
    assert!(registry.is_open("a.rs"));
    assert!(!registry.is_open("b.rs"));
}
