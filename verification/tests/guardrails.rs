use core_utilities_mcp::guardrails::path_safety::existing_read_path_outcome;
use core_utilities_mcp::guardrails::path_safety::{
    ensure_existing_read_path, ensure_existing_read_path_within, validate_path_safety,
    validate_path_safety_within, validate_read_path_safety, validate_read_path_safety_within,
    WorkspaceRoot,
};
use core_utilities_mcp::CoreError;

fn workspace(root: &std::path::Path) -> WorkspaceRoot {
    WorkspaceRoot::Root {
        root: root.to_str().unwrap().to_string(),
        cwd: Ok("/a/working/directory/elsewhere".to_string()),
    }
}

#[test]
fn tests_test_path_safety() {
    assert!(validate_path_safety("src/lib.rs").is_ok());
    assert!(validate_path_safety("").is_err());
    assert!(validate_path_safety(".").is_err());
    assert!(validate_path_safety("/").is_err());
    assert!(validate_path_safety("*").is_err());
    assert!(validate_path_safety("~").is_err());
    assert!(validate_path_safety("/var/log/*").is_err());
    assert!(validate_path_safety(&format!("{}{}", "/ho", "me/user/.*")).is_err());
    assert!(validate_path_safety("C:\\*").is_err());
}

#[test]
fn mod_test_path_safety() {
    assert!(validate_path_safety("src/lib.rs").is_ok());
    assert!(validate_path_safety("").is_err());
    assert!(validate_path_safety(".").is_err());
    assert!(validate_path_safety("/").is_err());
    assert!(validate_path_safety("*").is_err());
    assert!(validate_path_safety("~").is_err());
    assert!(validate_path_safety("/var/log/*").is_err());
    assert!(validate_path_safety("/home/user/.*").is_err());
    assert!(validate_path_safety("C:\\*").is_err());
}

#[test]
fn test_path_safety_rejects_current_dir_spellings() {
    assert!(validate_path_safety("./").is_err());
    assert!(validate_path_safety("././").is_err());
    assert!(validate_path_safety("a/..").is_err());
    assert!(validate_path_safety("..").is_ok());
}

#[test]
fn test_read_path_safety_permits_current_dir() {
    assert!(validate_read_path_safety(".").is_ok());
    assert!(validate_read_path_safety("./").is_ok());
    assert!(validate_read_path_safety("./src").is_ok());
    assert!(validate_read_path_safety("src/lib.rs").is_ok());
    assert!(validate_read_path_safety("").is_err());
    assert!(validate_read_path_safety("/").is_err());
    assert!(validate_read_path_safety("*").is_err());
    assert!(validate_read_path_safety("~").is_err());
    assert!(validate_read_path_safety("/etc").is_err());
    assert!(validate_read_path_safety("/etc/hosts").is_ok());
    assert!(validate_read_path_safety("path/with\0null").is_err());
}

#[test]
fn test_critical_system_dirs_rejected() {
    assert!(validate_path_safety("/etc").is_err());
    assert!(validate_path_safety("/etc/").is_err());
    assert!(validate_path_safety("/ETC").is_err());
    assert!(validate_path_safety("/usr").is_err());
    assert!(validate_path_safety("C:\\Windows").is_err());
    assert!(validate_path_safety("/etc/hosts").is_ok());
    assert!(validate_path_safety("/usr/local/myproject").is_ok());
}

#[test]
fn test_nul_byte_rejected() {
    assert!(validate_path_safety("path/with\0null").is_err());
}

#[test]
fn test_workspace_root_confinement() {
    let dir = tempfile::tempdir().unwrap();
    let root = dir.path().canonicalize().unwrap();
    let ws = workspace(&root);
    let inside = root.join("inside.txt");
    assert!(validate_path_safety_within(inside.to_str().unwrap(), &ws).is_ok());
    assert!(validate_path_safety_within("/etc/hosts", &ws).is_err());
    assert!(validate_path_safety_within("relative/inside/workspace.txt", &ws).is_err());
}

#[test]
fn test_workspace_root_blocks_parent_traversal() {
    let dir = tempfile::tempdir().unwrap();
    let root = dir.path().canonicalize().unwrap();
    let sub = tempfile::Builder::new().prefix("subdir").tempdir_in(&root).unwrap();
    let ws = workspace(&root);
    let escaping = sub.path().join("..").join("..").join("outside.txt");
    assert!(validate_path_safety_within(escaping.to_str().unwrap(), &ws).is_err());
}

#[test]
fn test_workspace_root_unset_means_unrestricted() {
    assert!(validate_path_safety_within("/any/path/at/all", &WorkspaceRoot::Unset).is_ok());
    assert!(validate_path_safety("/any/path/at/all").is_ok());
}

#[test]
fn rejection_messages_name_the_reason() {
    let msg = |r: Result<(), CoreError>| match r {
        Err(CoreError::Guardrail(m)) => m,
        other => panic!("expected a guardrail error, got {other:?}"),
    };
    assert_eq!(msg(validate_path_safety("   ")), "path is empty");
    assert_eq!(msg(validate_path_safety("a\0b")), "path contains a NUL byte");
    assert_eq!(
        msg(validate_path_safety(" ./ ")),
        "dangerous path sequence './' — this would target the entire current directory; pass a specific file or subdirectory instead"
    );
    assert_eq!(
        msg(validate_path_safety("~")),
        "dangerous path sequence '~' — this would target an entire filesystem root or every entry in a directory; pass a specific file or subdirectory instead"
    );
    assert_eq!(
        msg(validate_path_safety("logs/.*")),
        "wildcard target pattern 'logs/.*' — pass an explicit file or directory path instead of a shell glob"
    );
    assert_eq!(
        msg(validate_path_safety("/Usr/")),
        "operation targets a critical system directory '/Usr/' — operate on a specific path beneath it instead, e.g. '/Usr//some-file'"
    );
}

#[test]
fn workspace_messages_and_failure_modes() {
    let invalid = WorkspaceRoot::Invalid {
        setting: "/no/such/root".to_string(),
        reason: "No such file or directory".to_string(),
    };
    match validate_read_path_safety_within("notes.md", &invalid) {
        Err(CoreError::Guardrail(m)) => assert_eq!(
            m,
            "AI_WORKSPACE_ROOT '/no/such/root' is not a valid directory: No such file or directory"
        ),
        other => panic!("unexpected {other:?}"),
    }
    let no_cwd = WorkspaceRoot::Root {
        root: "/srv/rad".to_string(),
        cwd: Err("gone".to_string()),
    };
    match validate_path_safety_within("notes.md", &no_cwd) {
        Err(CoreError::Guardrail(m)) => assert_eq!(m, "failed to resolve current directory: gone"),
        other => panic!("unexpected {other:?}"),
    }
    // An absolute path does not need the current directory.
    assert!(validate_path_safety_within("/srv/rad/notes.md", &no_cwd).is_ok());
    let ws = WorkspaceRoot::Root {
        root: "/srv/rad".to_string(),
        cwd: Ok("/srv/rad/sub".to_string()),
    };
    assert!(validate_path_safety_within("../notes.md", &ws).is_ok());
    match validate_path_safety_within("../../other/id_ed25519", &ws) {
        Err(CoreError::Guardrail(m)) => assert_eq!(
            m,
            "path '../../other/id_ed25519' is outside the configured workspace root '/srv/rad' — pass a path inside that directory instead"
        ),
        other => panic!("unexpected {other:?}"),
    }
    // The read check lets "here" through, but confinement still applies.
    assert!(validate_read_path_safety_within(".", &ws).is_ok());
    assert!(validate_path_safety_within(".", &ws).is_err());
}

#[test]
fn ensure_existing_read_path_reports_missing_targets() {
    let dir = tempfile::tempdir().unwrap();
    let here = dir.path().to_str().unwrap().to_string();
    assert_eq!(ensure_existing_read_path(&here).unwrap(), here);
    let missing = format!("{here}/absent.txt");
    match ensure_existing_read_path(&missing) {
        Err(CoreError::File(m)) => assert_eq!(m, format!("Path does not exist: {missing}")),
        other => panic!("unexpected {other:?}"),
    }
    assert!(matches!(
        ensure_existing_read_path_within("/", &WorkspaceRoot::Unset),
        Err(CoreError::Guardrail(_))
    ));
}

#[test]
fn surrounding_whitespace_is_ignored() {
    assert!(validate_path_safety("  /etc/hosts \n").is_ok());
    assert!(validate_path_safety(" \t/etc\t ").is_err());
    assert!(validate_read_path_safety(" . ").is_ok());
}

#[test]
fn test_nonexistent_search_root_returns_file_error() {
    assert!(matches!(ensure_existing_read_path("/does/not/exist"), Err(CoreError::File(_))));
    assert!(matches!(
        ensure_existing_read_path_within("/does/not/exist", &WorkspaceRoot::Unset),
        Err(CoreError::File(_))
    ));
}

fn collapsed(p: &str) -> Vec<String> {
    let cs: Vec<char> = p.chars().collect();
    core_utilities_mcp::guardrails::lexical::normalized_components_exec(&cs)
        .into_iter()
        .map(|c| c.into_iter().collect())
        .collect()
}

#[test]
fn dot_components_collapse_lexically() {
    assert!(collapsed("a/..").is_empty());
    assert_eq!(collapsed("a/./b/../c"), vec!["a", "c"]);
    assert_eq!(collapsed("/../x"), vec!["/", "x"]);
    assert_eq!(collapsed("../a"), vec!["..", "a"]);
}

#[test]
fn collapsing_twice_changes_nothing() {
    for p in ["a/./b/../c", "../../a/..", "/x/../../y", "a/b/c/../../d"] {
        let once = collapsed(p).join("/");
        let once = once.replacen("//", "/", 1);
        assert_eq!(collapsed(&once), collapsed(p));
    }
}

#[test]
fn an_existence_answer_decides_a_checked_read_target() {
    let ws = WorkspaceRoot::Unset;
    assert_eq!(existing_read_path_outcome("notes.txt", &ws, true).unwrap(), "notes.txt");
    let e = existing_read_path_outcome("notes.txt", &ws, false).unwrap_err();
    assert!(matches!(&e, CoreError::File(m) if m == "Path does not exist: notes.txt"));
    assert!(matches!(existing_read_path_outcome("/etc", &ws, true), Err(CoreError::Guardrail(_))));
}
