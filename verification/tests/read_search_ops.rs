use sandbox_fs::errors::FsError;
use tokio::io::AsyncReadExt;
use sandbox_fs::read::{read_file_finish, read_file_precheck, read_multiple_files, MAX_FILE_SIZE};
use sandbox_fs::sandbox::{CanonOutcome, RootProbe, Sandbox};
use sandbox_fs::search::{build_patterns, list_directory, search_files, DirEntryInfo};

fn block_on<F: std::future::Future>(f: F) -> F::Output {
    tokio::runtime::Builder::new_current_thread()
        .enable_all()
        .build()
        .unwrap()
        .block_on(f)
}

fn canon(path: &str) -> CanonOutcome {
    match block_on(tokio::fs::canonicalize(path)) {
        Ok(p) => CanonOutcome::Resolved(p.to_string_lossy().to_string()),
        Err(e) if e.kind() == std::io::ErrorKind::NotFound => CanonOutcome::NotFound,
        Err(_) => CanonOutcome::Failed,
    }
}

fn make_sandbox(root: &str) -> Sandbox {
    let outcome = canon(root);
    let is_dir = block_on(tokio::fs::metadata(root))
        .map(|m| m.is_dir())
        .unwrap_or(false);
    Sandbox::new(vec![RootProbe { canon: outcome, is_dir }]).expect("sandbox init failed")
}

/// Resolves and reads one file as a dispatch layer would: the metadata
/// check first, then at most one byte over the ceiling, then the final
/// check on what actually arrived.
fn do_read_file(sb: &Sandbox, path: &str) -> Result<String, FsError> {
    let canon_path = sb.resolve_path(canon(path))?;
    let (is_file, meta_len) = match block_on(tokio::fs::metadata(&canon_path)) {
        Ok(m) => (m.is_file(), m.len()),
        Err(_) => return Err(FsError::Io),
    };
    read_file_precheck(is_file, meta_len)?;
    let bytes = block_on(async {
        let file = tokio::fs::File::open(&canon_path).await?;
        let mut buf: Vec<u8> = Vec::new();
        file.take(MAX_FILE_SIZE + 1).read_to_end(&mut buf).await?;
        Ok::<Vec<u8>, std::io::Error>(buf)
    })
    .map_err(|_| FsError::Io)?;
    read_file_finish(bytes)
}

fn do_list_directory(sb: &Sandbox, path: &str) -> Result<Vec<String>, FsError> {
    let canon_path = sb.resolve_path(canon(path))?;
    let entries = block_on(async {
        let mut dir = tokio::fs::read_dir(&canon_path).await?;
        let mut out: Vec<DirEntryInfo> = Vec::new();
        while let Some(entry) = dir.next_entry().await? {
            let file_type = entry.file_type().await?;
            out.push(DirEntryInfo {
                name: entry.file_name().to_string_lossy().to_string(),
                is_dir: file_type.is_dir(),
                is_symlink: file_type.is_symlink(),
            });
        }
        Ok::<Vec<DirEntryInfo>, std::io::Error>(out)
    })
    .map_err(|_| FsError::Io)?;
    Ok(list_directory(entries))
}

#[test]
fn test_read_file_roundtrip() {
    let temp_dir = tempfile::TempDir::new().unwrap();
    let sandbox = make_sandbox(temp_dir.path().to_str().unwrap());
    let file = temp_dir.path().join("note.txt");
    block_on(tokio::fs::write(&file, "some text")).unwrap();

    assert_eq!(do_read_file(&sandbox, file.to_str().unwrap()).unwrap(), "some text");
}

#[test]
fn test_read_file_at_ceiling_succeeds() {
    let temp_dir = tempfile::TempDir::new().unwrap();
    let sandbox = make_sandbox(temp_dir.path().to_str().unwrap());
    let file = temp_dir.path().join("exact.txt");
    let content = "y".repeat(MAX_FILE_SIZE as usize);
    block_on(tokio::fs::write(&file, &content)).unwrap();

    let text = do_read_file(&sandbox, file.to_str().unwrap()).unwrap();
    assert_eq!(text.len(), MAX_FILE_SIZE as usize);
}

#[test]
fn test_read_file_one_byte_over_ceiling_fails() {
    let temp_dir = tempfile::TempDir::new().unwrap();
    let sandbox = make_sandbox(temp_dir.path().to_str().unwrap());
    let file = temp_dir.path().join("over.txt");
    let content = "y".repeat(MAX_FILE_SIZE as usize + 1);
    block_on(tokio::fs::write(&file, &content)).unwrap();

    let result = do_read_file(&sandbox, file.to_str().unwrap());
    assert_eq!(result, Err(FsError::SizeLimitExceeded));
}

#[test]
fn test_read_file_not_regular_file() {
    let temp_dir = tempfile::TempDir::new().unwrap();
    let sandbox = make_sandbox(temp_dir.path().to_str().unwrap());
    let dir = temp_dir.path().join("subdir");
    block_on(tokio::fs::create_dir_all(&dir)).unwrap();

    let result = do_read_file(&sandbox, dir.to_str().unwrap());
    assert_eq!(result, Err(FsError::NotRegularFile));
}

#[test]
fn test_read_file_invalid_utf8_is_encoding_error() {
    let temp_dir = tempfile::TempDir::new().unwrap();
    let sandbox = make_sandbox(temp_dir.path().to_str().unwrap());
    let file = temp_dir.path().join("binary.bin");
    block_on(tokio::fs::write(&file, vec![0xff, 0xfe, 0x80])).unwrap();

    let result = do_read_file(&sandbox, file.to_str().unwrap());
    assert_eq!(result, Err(FsError::Encoding));
}

#[test]
fn test_read_file_outside_sandbox() {
    let temp_dir = tempfile::TempDir::new().unwrap();
    let sandbox = make_sandbox(temp_dir.path().to_str().unwrap());

    let result = do_read_file(&sandbox, "/etc/passwd");
    assert_eq!(result, Err(FsError::OutsideSandbox));
}

#[test]
fn test_read_multiple_files_drops_failures() {
    let temp_dir = tempfile::TempDir::new().unwrap();
    let sandbox = make_sandbox(temp_dir.path().to_str().unwrap());
    let good = temp_dir.path().join("good.txt");
    block_on(tokio::fs::write(&good, "ok")).unwrap();
    let missing = temp_dir.path().join("missing.txt");

    let results = vec![
        do_read_file(&sandbox, good.to_str().unwrap()),
        do_read_file(&sandbox, missing.to_str().unwrap()),
    ];
    let contents = read_multiple_files(results);
    assert_eq!(contents, vec!["ok".to_string()]);
}

#[test]
fn test_read_multiple_files_keeps_input_order() {
    let results = vec![
        Ok("first".to_string()),
        Err(FsError::NotFound),
        Ok("second".to_string()),
    ];
    let contents = read_multiple_files(results);
    assert_eq!(contents, vec!["first".to_string(), "second".to_string()]);
}

#[test]
fn test_list_directory_sorted_with_dir_suffix() {
    let temp_dir = tempfile::TempDir::new().unwrap();
    let sandbox = make_sandbox(temp_dir.path().to_str().unwrap());
    block_on(tokio::fs::write(temp_dir.path().join("b.txt"), "")).unwrap();
    block_on(tokio::fs::write(temp_dir.path().join("a.txt"), "")).unwrap();
    block_on(tokio::fs::create_dir_all(temp_dir.path().join("zdir"))).unwrap();
    block_on(tokio::fs::create_dir_all(temp_dir.path().join("adir"))).unwrap();

    let names = do_list_directory(&sandbox, temp_dir.path().to_str().unwrap()).unwrap();
    assert_eq!(
        names,
        vec![
            "a.txt".to_string(),
            "adir/".to_string(),
            "b.txt".to_string(),
            "zdir/".to_string(),
        ]
    );
}

#[test]
fn test_list_directory_skips_symlinks() {
    let temp_dir = tempfile::TempDir::new().unwrap();
    let sandbox = make_sandbox(temp_dir.path().to_str().unwrap());
    let target = temp_dir.path().join("target.txt");
    block_on(tokio::fs::write(&target, "content")).unwrap();
    let link = temp_dir.path().join("link.txt");
    block_on(tokio::fs::symlink(&target, &link)).unwrap();

    let names = do_list_directory(&sandbox, temp_dir.path().to_str().unwrap()).unwrap();
    assert_eq!(names, vec!["target.txt".to_string()]);
}

#[test]
fn test_list_directory_stable_across_calls() {
    let temp_dir = tempfile::TempDir::new().unwrap();
    let sandbox = make_sandbox(temp_dir.path().to_str().unwrap());
    block_on(tokio::fs::write(temp_dir.path().join("one.txt"), "")).unwrap();
    block_on(tokio::fs::write(temp_dir.path().join("two.txt"), "")).unwrap();

    let first = do_list_directory(&sandbox, temp_dir.path().to_str().unwrap()).unwrap();
    let second = do_list_directory(&sandbox, temp_dir.path().to_str().unwrap()).unwrap();
    assert_eq!(first, second);
}

#[test]
fn test_search_files_matches_case_insensitively() {
    let temp_dir = tempfile::TempDir::new().unwrap();
    let sandbox = make_sandbox(temp_dir.path().to_str().unwrap());
    block_on(tokio::fs::write(temp_dir.path().join("Notes.TXT"), "")).unwrap();
    block_on(tokio::fs::write(temp_dir.path().join("image.png"), "")).unwrap();
    let sub = temp_dir.path().join("deep");
    block_on(tokio::fs::create_dir_all(&sub)).unwrap();
    block_on(tokio::fs::write(sub.join("more.txt"), "")).unwrap();

    let root = sandbox.resolve_path(canon(temp_dir.path().to_str().unwrap())).unwrap();
    let found = search_files(&sandbox, &root, "*.txt", &vec![]).unwrap();
    assert_eq!(found.len(), 2);
    assert!(found[0] <= found[1]);
    assert!(found.iter().any(|p| p.ends_with("Notes.TXT")));
    assert!(found.iter().any(|p| p.ends_with("more.txt")));
}

#[test]
fn test_search_files_applies_excludes() {
    let temp_dir = tempfile::TempDir::new().unwrap();
    let sandbox = make_sandbox(temp_dir.path().to_str().unwrap());
    block_on(tokio::fs::write(temp_dir.path().join("keep.txt"), "")).unwrap();
    block_on(tokio::fs::write(temp_dir.path().join("skip.txt"), "")).unwrap();

    let root = sandbox.resolve_path(canon(temp_dir.path().to_str().unwrap())).unwrap();
    let found = search_files(&sandbox, &root, "*.txt", &vec!["skip*".to_string()]).unwrap();
    assert_eq!(found.len(), 1);
    assert!(found[0].ends_with("keep.txt"));
}

#[test]
fn test_search_files_invalid_glob() {
    let temp_dir = tempfile::TempDir::new().unwrap();
    let sandbox = make_sandbox(temp_dir.path().to_str().unwrap());

    let root = sandbox.resolve_path(canon(temp_dir.path().to_str().unwrap())).unwrap();
    let result = search_files(&sandbox, &root, "a[", &vec![]);
    assert_eq!(result, Err(FsError::InvalidPattern));
}

#[test]
fn test_build_patterns_invalid_exclude() {
    let result = build_patterns("*.txt", &vec!["b[".to_string()]);
    assert!(result.is_err());
}

#[test]
fn test_precheck_rejects_oversize_metadata() {
    assert_eq!(read_file_precheck(true, MAX_FILE_SIZE), Ok(()));
    assert_eq!(
        read_file_precheck(true, MAX_FILE_SIZE + 1),
        Err(FsError::SizeLimitExceeded)
    );
    assert_eq!(read_file_precheck(false, 0), Err(FsError::NotRegularFile));
}

#[test]
fn test_build_patterns_oversize_pattern_is_error() {
    // A syntactically valid glob whose compiled matcher exceeds the
    // globset crate's internal size limit must come back as an invalid
    // pattern, never abort. The interior wildcards force the regex path.
    let huge = format!("*{}*", "a".repeat(4 * 1024 * 1024));
    let result = build_patterns(&huge, &vec![]);
    assert_eq!(result.err().map(|e| e == FsError::InvalidPattern), Some(true));
}

#[test]
fn test_search_results_begin_with_searched_root() {
    let temp_dir = tempfile::TempDir::new().unwrap();
    let sandbox = make_sandbox(temp_dir.path().to_str().unwrap());
    block_on(tokio::fs::write(temp_dir.path().join("hit.txt"), "")).unwrap();
    let sub = temp_dir.path().join("inner");
    block_on(tokio::fs::create_dir_all(&sub)).unwrap();
    block_on(tokio::fs::write(sub.join("deep.txt"), "")).unwrap();

    let root = sandbox.resolve_path(canon(temp_dir.path().to_str().unwrap())).unwrap();
    let found = search_files(&sandbox, &root, "*.txt", &vec![]).unwrap();
    assert_eq!(found.len(), 2);
    assert!(found.iter().all(|p| p.starts_with(&root)));
}
