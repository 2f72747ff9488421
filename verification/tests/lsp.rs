
use claw_runtime::lsp_discovery::{
    best_install_instruction, check_lsp_availability, discover_available_servers,
    distro_from_os_release, find_server_for_extension, find_server_for_file,
    format_install_prompt, install_instructions_for, known_lsp_servers, CommandProbe,
    LinuxDistro, LspInstallAction,
};
use claw_runtime::lsp_parse::{
    completion_kind_name, language_id_for_path, severity_name, symbol_kind_name, uri_to_path,
};
use claw_runtime::lsp_types::{LspAction, LspServerStatus};

const ALL_DISTROS: [LinuxDistro; 12] = [
    LinuxDistro::Debian,
    LinuxDistro::Ubuntu,
    LinuxDistro::Fedora,
    LinuxDistro::Arch,
    LinuxDistro::OpenSuse,
    LinuxDistro::Alpine,
    LinuxDistro::Void,
    LinuxDistro::NixOS,
    LinuxDistro::UnknownLinux,
    LinuxDistro::MacOS,
    LinuxDistro::Windows,
    LinuxDistro::Other,
];

fn check_action_aliases() {
    let cases = [
        ("diagnostics", Some(LspAction::Diagnostics)),
        ("hover", Some(LspAction::Hover)),
        ("definition", Some(LspAction::Definition)),
        ("goto_definition", Some(LspAction::Definition)),
        ("references", Some(LspAction::References)),
        ("find_references", Some(LspAction::References)),
        ("completion", Some(LspAction::Completion)),
        ("completions", Some(LspAction::Completion)),
        ("symbols", Some(LspAction::Symbols)),
        ("document_symbols", Some(LspAction::Symbols)),
        ("format", Some(LspAction::Format)),
        ("formatting", Some(LspAction::Format)),
        ("unknown", None),
    ];
    let resolved: Vec<_> = cases
        .into_iter()
        .map(|(input, expected)| (input, LspAction::from_str(input), expected))
        .collect();
    for (input, actual, expected) in resolved {
        assert_eq!(actual, expected, "unexpected action resolution for {input}");
    }
}

fn check_status_rendering() {
    let cases = [
        (LspServerStatus::Connected, "connected"),
        (LspServerStatus::Disconnected, "disconnected"),
        (LspServerStatus::Starting, "starting"),
        (LspServerStatus::Error, "error"),
    ];
    let rendered: Vec<_> = cases
        .into_iter()
        .map(|(status, expected)| (status.to_string(), expected))
        .collect();
    assert_eq!(
        rendered,
        vec![
            ("connected".to_string(), "connected"),
            ("disconnected".to_string(), "disconnected"),
            ("starting".to_string(), "starting"),
            ("error".to_string(), "error"),
        ]
    );
}

#[test]
fn lsp_client_lsp_action_from_str_all_aliases() {
    check_action_aliases();
}

#[test]
fn tests_lsp_action_from_str_all_aliases() {
    check_action_aliases();
}

#[test]
fn lsp_client_lsp_server_status_display_all_variants() {
    check_status_rendering();
}

#[test]
fn tests_lsp_server_status_display_all_variants() {
    check_status_rendering();
}

#[test]
fn known_servers_contains_expected_languages() {
    let servers = known_lsp_servers();
    let languages: Vec<&str> = servers.iter().map(|s| s.language.as_str()).collect();
    assert!(languages.contains(&"rust"));
    assert!(languages.contains(&"c/cpp"));
    assert!(languages.contains(&"python"));
    assert!(languages.contains(&"go"));
    assert!(languages.contains(&"typescript"));
    assert!(languages.contains(&"java"));
    assert!(languages.contains(&"ruby"));
    assert!(languages.contains(&"lua"));
}

#[test]
fn find_server_for_rust_file() {
    let servers = known_lsp_servers();
    let result = find_server_for_file("src/main.rs", &servers);
    assert!(result.is_some());
    assert_eq!(result.unwrap().language, "rust");
}

#[test]
fn find_server_for_python_file() {
    let servers = known_lsp_servers();
    let result = find_server_for_file("app.py", &servers);
    assert!(result.is_some());
    assert_eq!(result.unwrap().language, "python");
}

#[test]
fn find_server_for_typescript_file() {
    let servers = known_lsp_servers();
    let result = find_server_for_file("index.tsx", &servers);
    assert!(result.is_some());
    assert_eq!(result.unwrap().language, "typescript");
}

#[test]
fn find_server_for_unknown_extension_returns_none() {
    let servers = known_lsp_servers();
    let result = find_server_for_file("data.xyz", &servers);
    assert!(result.is_none());
}

#[test]
fn find_server_for_file_without_extension_returns_none() {
    let servers = known_lsp_servers();
    let result = find_server_for_file("Makefile", &servers);
    assert!(result.is_none());
}

#[test]
fn find_server_for_rs_file() {
    let servers = known_lsp_servers();
    let result = find_server_for_file("src/main.rs", &servers);
    assert!(result.is_some());
    assert_eq!(result.unwrap().language, "rust");
}

#[test]
fn find_server_for_unknown_extension() {
    let servers = known_lsp_servers();
    let result = find_server_for_file("README.md", &servers);
    assert!(result.is_none());
}

#[test]
fn find_server_for_extension_matches_without_dot() {
    let servers = known_lsp_servers();
    assert_eq!(find_server_for_extension("go", &servers).unwrap().language, "go");
    assert!(find_server_for_extension(".go", &servers).is_none());
}

#[test]
fn descriptor_has_correct_args() {
    let servers = known_lsp_servers();
    let rust = servers.iter().find(|s| s.language == "rust").expect("rust server should exist");
    assert!(rust.args.is_empty(), "rust-analyzer should have no args");
    let ts = servers
        .iter()
        .find(|s| s.language == "typescript")
        .expect("typescript server should exist");
    assert_eq!(ts.args, vec!["--stdio"]);
}

#[test]
fn install_instructions_cover_all_languages() {
    for desc in known_lsp_servers() {
        let instructions = install_instructions_for(&desc.language);
        assert!(!instructions.is_empty(), "no install instructions for '{}'", desc.language);
        assert!(!desc.install_hint.is_empty());
    }
    assert!(install_instructions_for("cobol").is_empty());
}

#[test]
fn best_install_returns_something_for_known_languages() {
    for desc in known_lsp_servers() {
        for distro in ALL_DISTROS {
            assert!(
                best_install_instruction(&desc.language, distro).is_some(),
                "no best install for '{}'",
                desc.language
            );
        }
    }
}

#[test]
fn format_install_prompt_skips_installed() {
    let actions = vec![LspInstallAction::Installed];
    for distro in ALL_DISTROS {
        assert!(format_install_prompt(&actions, distro).is_empty());
    }
}

#[test]
fn format_install_prompt_shows_missing() {
    let actions = vec![LspInstallAction::Missing {
        language: "rust".into(),
        instructions: install_instructions_for("rust"),
    }];
    for distro in ALL_DISTROS {
        let prompt = format_install_prompt(&actions, distro);
        assert!(prompt.contains("rust"), "should mention rust");
        assert!(prompt.contains("rustup component add rust-analyzer"), "should show rustup command");
    }
}

#[test]
fn format_install_prompt_shows_rustup_proxy_missing() {
    let actions = vec![LspInstallAction::RustupProxyMissing {
        language: "rust".into(),
        component: "rust-analyzer".into(),
    }];
    for distro in ALL_DISTROS {
        let prompt = format_install_prompt(&actions, distro);
        assert!(prompt.contains("rustup component add rust-analyzer"));
    }
}

#[test]
fn check_availability_returns_one_per_known_language() {
    let count = known_lsp_servers().len();
    let missing = CommandProbe { exists: false, rustup_proxy: false, component_works: false };
    let actions = check_lsp_availability(&vec![missing; count]);
    assert_eq!(actions.len(), count);
    assert!(actions.iter().all(|a| matches!(a, LspInstallAction::Missing { .. })));
    assert!(discover_available_servers(&vec![missing; count]).is_empty());

    let present = CommandProbe { exists: true, rustup_proxy: false, component_works: false };
    let actions = check_lsp_availability(&vec![present; count]);
    assert!(actions.iter().all(|a| matches!(a, LspInstallAction::Installed)));
    assert_eq!(discover_available_servers(&vec![present; count]).len(), count);
}

#[test]
fn rustup_proxy_without_component_is_reported() {
    let servers = known_lsp_servers();
    let count = servers.len();
    let proxy = CommandProbe { exists: true, rustup_proxy: true, component_works: false };
    let actions = check_lsp_availability(&vec![proxy; count]);
    let rust_index = servers.iter().position(|s| s.command == "rust-analyzer").unwrap();
    assert_eq!(
        actions[rust_index],
        LspInstallAction::RustupProxyMissing {
            language: "rust".to_string(),
            component: "rust-analyzer".to_string(),
        }
    );
    let discovered = discover_available_servers(&vec![proxy; count]);
    assert!(discovered.iter().all(|s| s.language != "rust"));
}

#[test]
fn os_release_names_the_distribution() {
    assert_eq!(distro_from_os_release("NAME=\"Ubuntu\"\nID=ubuntu"), LinuxDistro::Ubuntu);
    assert_eq!(distro_from_os_release("NAME=\"Fedora Linux\""), LinuxDistro::Fedora);
    assert_eq!(distro_from_os_release("NAME=\"Arch Linux\""), LinuxDistro::Arch);
    assert_eq!(distro_from_os_release("NAME=Something"), LinuxDistro::UnknownLinux);
}

fn check_symbol_kinds() {
    assert_eq!(symbol_kind_name(1), "File");
    assert_eq!(symbol_kind_name(6), "Method");
    assert_eq!(symbol_kind_name(12), "Function");
    assert_eq!(symbol_kind_name(13), "Variable");
    assert_eq!(symbol_kind_name(23), "Struct");
    assert_eq!(symbol_kind_name(99), "Unknown(99)");
}

fn check_completion_kinds() {
    assert_eq!(completion_kind_name(1), "Text");
    assert_eq!(completion_kind_name(3), "Function");
    assert_eq!(completion_kind_name(6), "Variable");
    assert_eq!(completion_kind_name(14), "Keyword");
    assert_eq!(completion_kind_name(99), "Unknown(99)");
}

fn check_uri_to_path() {
    assert_eq!(uri_to_path("file:///tmp/test.rs"), "/tmp/test.rs");
    assert_eq!(uri_to_path("/no/prefix"), "/no/prefix");
}

#[test]
fn lsp_process_symbol_kind_name_all_variants() {
    check_symbol_kinds();
}

#[test]
fn tests_symbol_kind_name_all_variants() {
    check_symbol_kinds();
}

#[test]
fn lsp_process_completion_kind_name_all_variants() {
    check_completion_kinds();
}

#[test]
fn tests_completion_kind_name_all_variants() {
    check_completion_kinds();
}

#[test]
fn lsp_process_uri_to_path_extracts_path() {
    check_uri_to_path();
}

#[test]
fn tests_uri_to_path_extracts_path() {
    check_uri_to_path();
}

#[test]
fn severity_and_language_ids() {
    assert_eq!(severity_name(1), "error");
    assert_eq!(language_id_for_path("src/lib.rs"), "rust");
}
