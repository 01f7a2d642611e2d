//! Tests of the command sanitizer and the directory scanner's selection rule.

use nanny::orchestrator::theme_script_path;
use nanny::sanitize::{sanitize_exec, shell_command};
use nanny::scan::{list_desktop_files, FsEntry};

fn entry(name: &str, is_file: bool) -> FsEntry {
    FsEntry { name: name.to_string(), is_file }
}

#[test]
fn sanitize_removes_field_codes_and_strips_quotes() {
    let r = sanitize_exec("firefox %U \"%f\"");
    assert!(r.contains("firefox"));
    assert!(!r.contains('%'));
    assert!(!r.starts_with('"'));
    // Every two-character %-code is gone; of the pair of quotes that wrapped
    // the second code, the trailing one is the single trailing quote stripped.
    assert_eq!(r, "firefox  \"");
}

#[test]
fn sanitize_strips_one_surrounding_quote_pair() {
    assert_eq!(sanitize_exec("\"firefox\""), "firefox");
    assert_eq!(sanitize_exec("\"\"firefox\"\""), "\"firefox\"");
}

#[test]
fn sanitize_keeps_a_lone_trailing_percent() {
    assert_eq!(sanitize_exec("dim 50%"), "dim 50%");
}

#[test]
fn sanitize_of_a_single_quote_is_empty() {
    assert_eq!(sanitize_exec("\""), "");
}

#[test]
fn shell_command_wraps_in_backquotes() {
    assert_eq!(shell_command("firefox %U"), "`firefox `");
    assert_eq!(shell_command("\"mutter\""), "`mutter`");
}

#[test]
fn scan_keeps_only_descriptor_files() {
    let entries = vec![
        entry("a.desktop", true),
        entry("b.txt", true),
        entry("c.desktop", false),
    ];
    let r = list_desktop_files(true, &entries);
    assert_eq!(r, vec!["a.desktop".to_string()]);
}

#[test]
fn scan_of_a_missing_directory_is_empty() {
    let entries = vec![entry("a.desktop", true)];
    let r = list_desktop_files(false, &entries);
    assert!(r.is_empty());
}

#[test]
fn scan_needs_a_stem_before_the_extension() {
    let entries = vec![entry(".desktop", true), entry("x.desktop", true)];
    let r = list_desktop_files(true, &entries);
    assert_eq!(r, vec!["x.desktop".to_string()]);
}

#[test]
fn theme_script_sits_under_the_config_base() {
    assert_eq!(theme_script_path(), "themes/current/up");
}
