use sandbox_fs::errors::FsError;
use sandbox_fs::pathutil::{ancestors_list, join_path, split_parent_leaf};
use sandbox_fs::sandbox::{first_bad_root_index, CanonOutcome, RootProbe, Sandbox};

fn block_on<F: std::future::Future>(f: F) -> F::Output {
    tokio::runtime::Builder::new_current_thread()
        .enable_all()
        .build()
        .unwrap()
        .block_on(f)
}

fn canon(path: &str) -> CanonOutcome {
    match block_on(tokio::fs::canonicalize(path)) {
        Ok(p) => CanonOutcome::Resolved(p.to_string_lossy().to_string()),
        Err(e) if e.kind() == std::io::ErrorKind::NotFound => CanonOutcome::NotFound,
        Err(_) => CanonOutcome::Failed,
    }
}

fn make_sandbox(root: &str) -> Sandbox {
    let outcome = canon(root);
    let is_dir = block_on(tokio::fs::metadata(root))
        .map(|m| m.is_dir())
        .unwrap_or(false);
    Sandbox::new(vec![RootProbe { canon: outcome, is_dir }]).expect("sandbox init failed")
}

#[test]
fn test_sandbox_new_rejects_missing_root() {
    let result = Sandbox::new(vec![RootProbe { canon: CanonOutcome::NotFound, is_dir: false }]);
    assert!(matches!(result, Err(FsError::Configuration)));
}

#[test]
fn test_sandbox_new_rejects_file_root() {
    let temp_dir = tempfile::TempDir::new().unwrap();
    let file = temp_dir.path().join("afile");
    block_on(tokio::fs::write(&file, "x")).unwrap();
    let result = Sandbox::new(vec![RootProbe { canon: canon(file.to_str().unwrap()), is_dir: false }]);
    assert!(matches!(result, Err(FsError::Configuration)));
}

#[test]
fn test_get_roots_reports_canonical_roots() {
    let temp_dir = tempfile::TempDir::new().unwrap();
    let sandbox = make_sandbox(temp_dir.path().to_str().unwrap());
    let roots = sandbox.get_roots();
    assert_eq!(roots.len(), 1);
    let canonical = match canon(temp_dir.path().to_str().unwrap()) {
        CanonOutcome::Resolved(p) => p,
        _ => panic!("root should resolve"),
    };
    assert_eq!(roots[0], canonical);
}

#[test]
fn test_resolve_path_inside_root() {
    let temp_dir = tempfile::TempDir::new().unwrap();
    let sandbox = make_sandbox(temp_dir.path().to_str().unwrap());
    let nested = temp_dir.path().join("inner/deep");
    block_on(tokio::fs::create_dir_all(&nested)).unwrap();

    let resolved = sandbox.resolve_path(canon(nested.to_str().unwrap())).unwrap();
    let root = sandbox.get_roots()[0].clone();
    assert!(resolved.starts_with(&root));
}

#[test]
fn test_resolve_path_outside_root() {
    let temp_dir = tempfile::TempDir::new().unwrap();
    let sandbox = make_sandbox(temp_dir.path().to_str().unwrap());

    let result = sandbox.resolve_path(canon("/etc/passwd"));
    assert!(matches!(result, Err(FsError::OutsideSandbox)));
}

#[test]
fn test_resolve_path_dotdot_escape_rejected() {
    let temp_dir = tempfile::TempDir::new().unwrap();
    let sandbox = make_sandbox(temp_dir.path().to_str().unwrap());
    let escape = format!("{}/../", temp_dir.path().to_str().unwrap());

    let result = sandbox.resolve_path(canon(&escape));
    assert!(matches!(result, Err(FsError::OutsideSandbox)));
}

#[test]
fn test_resolve_path_symlink_escape_rejected() {
    let temp_dir = tempfile::TempDir::new().unwrap();
    let outside = tempfile::TempDir::new().unwrap();
    let sandbox = make_sandbox(temp_dir.path().to_str().unwrap());
    let target = outside.path().join("secret.txt");
    block_on(tokio::fs::write(&target, "hidden")).unwrap();
    let link = temp_dir.path().join("innocent.txt");
    block_on(tokio::fs::symlink(&target, &link)).unwrap();

    let result = sandbox.resolve_path(canon(link.to_str().unwrap()));
    assert!(matches!(result, Err(FsError::OutsideSandbox)));
}

#[test]
fn test_resolve_path_missing_target() {
    let temp_dir = tempfile::TempDir::new().unwrap();
    let sandbox = make_sandbox(temp_dir.path().to_str().unwrap());
    let missing = temp_dir.path().join("missing.txt");

    let result = sandbox.resolve_path(canon(missing.to_str().unwrap()));
    assert!(matches!(result, Err(FsError::NotFound)));
}

#[test]
fn test_is_contained_requires_component_boundary() {
    let temp_dir = tempfile::TempDir::new().unwrap();
    let sandbox = make_sandbox(temp_dir.path().to_str().unwrap());
    let root = sandbox.get_roots()[0].clone();

    assert!(sandbox.is_contained(&root));
    assert!(sandbox.is_contained(&format!("{}/a.txt", root)));
    assert!(!sandbox.is_contained(&format!("{}sibling/a.txt", root)));
    assert!(!sandbox.is_contained("/somewhere/else"));
}

#[test]
fn test_check_new_folders_accepts_contained_ancestor() {
    let temp_dir = tempfile::TempDir::new().unwrap();
    let sandbox = make_sandbox(temp_dir.path().to_str().unwrap());
    let fresh = temp_dir.path().join("brand/new/dirs");

    let ancestors = ancestors_list(fresh.to_str().unwrap());
    let canons: Vec<CanonOutcome> = ancestors.iter().map(|a| canon(a)).collect();
    assert!(sandbox.check_new_folders(&canons));
}

#[test]
fn test_check_new_folders_rejects_outside_ancestor() {
    let temp_dir = tempfile::TempDir::new().unwrap();
    let outside = tempfile::TempDir::new().unwrap();
    let sandbox = make_sandbox(temp_dir.path().to_str().unwrap());
    let fresh = outside.path().join("brand/new/dirs");

    let ancestors = ancestors_list(fresh.to_str().unwrap());
    let canons: Vec<CanonOutcome> = ancestors.iter().map(|a| canon(a)).collect();
    assert!(!sandbox.check_new_folders(&canons));
}

#[test]
fn test_split_parent_leaf_cases() {
    assert_eq!(
        split_parent_leaf("/a/b/c.txt"),
        Some(("/a/b".to_string(), "c.txt".to_string()))
    );
    assert_eq!(split_parent_leaf("/a"), Some(("/".to_string(), "a".to_string())));
    assert_eq!(split_parent_leaf("plain"), None);
    assert_eq!(split_parent_leaf("/a/b/"), None);
}

#[test]
fn test_join_path_cases() {
    assert_eq!(join_path("/a/b", "c.txt"), "/a/b/c.txt");
    assert_eq!(join_path("/", "c.txt"), "/c.txt");
}

#[test]
fn test_ancestors_list_walks_to_root() {
    assert_eq!(
        ancestors_list("/a/b/c"),
        vec![
            "/a/b/c".to_string(),
            "/a/b".to_string(),
            "/a".to_string(),
            "/".to_string(),
        ]
    );
}

#[test]
fn test_first_bad_root_index_names_the_failure() {
    let temp_dir = tempfile::TempDir::new().unwrap();
    let good = RootProbe { canon: canon(temp_dir.path().to_str().unwrap()), is_dir: true };
    let bad = RootProbe { canon: CanonOutcome::NotFound, is_dir: false };
    assert_eq!(first_bad_root_index(&vec![good, bad]), Some(1));

    let good_again = RootProbe { canon: canon(temp_dir.path().to_str().unwrap()), is_dir: true };
    assert_eq!(first_bad_root_index(&vec![good_again]), None);
}
