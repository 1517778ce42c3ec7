use sandbox_fs::errors::{error_message, FsError};
use sandbox_fs::http_paths::{extract_server_id, is_mcp_path, normalize_header_pairs, normalize_headers};
use sandbox_fs::info::get_file_info;
use sandbox_fs::strings::{begins_with, contains_sub, find_sub, finishes_with, lex_le_exec, replace_all, str_eq};

#[test]
fn test_replace_all_basic() {
    assert_eq!(replace_all("hello world", "world", "Rust"), "hello Rust");
    assert_eq!(replace_all("aaa", "aa", "b"), "ba");
    assert_eq!(replace_all("none here", "zzz", "x"), "none here");
    assert_eq!(replace_all("abc", "", "X"), "XaXbXcX");
}

#[test]
fn test_find_and_contains() {
    assert_eq!(find_sub("abcabc", "bc"), Some(1));
    assert_eq!(find_sub("abc", "zz"), None);
    assert!(contains_sub("hello", "ell"));
    assert!(!contains_sub("hello", "xyz"));
    assert!(begins_with("hello", "he"));
    assert!(finishes_with("hello", "lo"));
    assert!(str_eq("same", "same"));
    assert!(!str_eq("same", "different"));
}

#[test]
fn test_lex_order() {
    assert!(lex_le_exec("a", "b"));
    assert!(lex_le_exec("a", "ab"));
    assert!(!lex_le_exec("b", "ab"));
    assert!(lex_le_exec("", "a"));
    assert!(lex_le_exec("abc", "abc"));
}

#[test]
fn test_extract_server_id_found() {
    assert_eq!(
        extract_server_id("/servers/uuid-123/mcp/"),
        Some("uuid-123".to_string())
    );
}

#[test]
fn test_extract_server_id_missing_marker() {
    assert_eq!(extract_server_id("/other/uuid/mcp"), None);
}

#[test]
fn test_extract_server_id_missing_endpoint() {
    assert_eq!(extract_server_id("/servers/uuid/other"), None);
}

#[test]
fn test_extract_server_id_empty_candidate() {
    assert_eq!(extract_server_id("/servers//mcp"), None);
}

#[test]
fn test_is_mcp_path_cases() {
    assert!(is_mcp_path("/servers/x/mcp"));
    assert!(is_mcp_path("/servers/x/mcp/"));
    assert!(!is_mcp_path("/servers/x/sse"));
    assert!(!is_mcp_path("/mcpx"));
}

#[test]
fn test_normalize_header_pairs_lowercases_names() {
    let headers = vec![
        ("Content-Type".to_string(), "text/plain".to_string()),
        ("X-CUSTOM".to_string(), "Value".to_string()),
    ];
    let pairs = normalize_header_pairs(&headers);
    assert_eq!(pairs[0].0, "content-type");
    assert_eq!(pairs[0].1, "text/plain");
    assert_eq!(pairs[1].0, "x-custom");
    assert_eq!(pairs[1].1, "Value");
}

#[test]
fn test_normalize_headers_builds_map() {
    let headers = vec![
        ("Accept".to_string(), "*/*".to_string()),
        ("ACCEPT".to_string(), "text/html".to_string()),
    ];
    let map = normalize_headers(headers);
    assert_eq!(map.len(), 1);
    assert_eq!(map.get("accept"), Some(&"text/html".to_string()));
}

#[test]
fn test_get_file_info_octal_permissions() {
    let info = get_file_info(0o100644, 5, Some(0), None);
    assert_eq!(info.permissions, "644");
    assert_eq!(info.size, 5);
    assert!(info.created.is_some());
    assert!(info.modified.is_none());
}

#[test]
fn test_get_file_info_zero_mode() {
    let info = get_file_info(0, 0, None, None);
    assert_eq!(info.permissions, "0");
}

#[test]
fn test_error_message_wraps_operation_and_path() {
    let message = error_message("read_file", "/sandbox/a.txt", FsError::SizeLimitExceeded);
    assert_eq!(message, "read_file '/sandbox/a.txt': file exceeds size limit");
    let message = error_message("move_file", "/a -> /b", FsError::OutsideSandbox);
    assert_eq!(message, "move_file '/a -> /b': path is outside sandbox roots");
}
