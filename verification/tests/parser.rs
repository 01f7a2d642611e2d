//! Tests of the descriptor parser and the per-descriptor boot decisions.

use nanny::desktop::parse_desktop_file;
use nanny::orchestrator::{boot_plan, plan_file, BootPlan, Nanny};

fn lines(texts: &[&str]) -> Vec<String> {
    texts.iter().map(|t| t.to_string()).collect()
}

#[test]
fn last_occurrence_of_a_key_wins() {
    let m = parse_desktop_file(&lines(&["Name=A", "Name=B"]));
    assert_eq!(m.get("Name"), Some(&"B".to_string()));
    assert_eq!(m.len(), 1);
}

#[test]
fn comments_and_blank_lines_yield_no_entries() {
    let m = parse_desktop_file(&lines(&["# a comment", "", "   ", "# Key=value"]));
    assert_eq!(m.len(), 0);
}

#[test]
fn line_without_equals_gets_empty_value() {
    let m = parse_desktop_file(&lines(&["Terminal"]));
    assert_eq!(m.get("Terminal"), Some(&String::new()));
    assert_eq!(m.len(), 1);
}

#[test]
fn split_happens_at_first_equals() {
    let m = parse_desktop_file(&lines(&["Exec=env A=B firefox"]));
    assert_eq!(m.get("Exec"), Some(&"env A=B firefox".to_string()));
}

#[test]
fn lines_are_trimmed_before_splitting() {
    let m = parse_desktop_file(&lines(&["  Name=Firefox  \t"]));
    assert_eq!(m.get("Name"), Some(&"Firefox".to_string()));
}

#[test]
fn empty_key_is_skipped() {
    let m = parse_desktop_file(&lines(&["=value"]));
    assert_eq!(m.len(), 0);
    assert_eq!(m.get(""), None);
}

#[test]
fn missing_key_reads_none() {
    let m = parse_desktop_file(&lines(&["Name=x"]));
    assert_eq!(m.get("Exec"), None);
}

#[test]
fn hidden_descriptor_is_skipped() {
    let p = boot_plan(&lines(&["Hidden=true", "Exec=firefox"]));
    assert!(matches!(p, BootPlan::SkippedHidden));
}

#[test]
fn hidden_false_still_launches() {
    let p = boot_plan(&lines(&["Hidden=false", "Exec=firefox"]));
    match p {
        BootPlan::Launch(cmd) => assert_eq!(cmd, "`firefox`"),
        _ => panic!("expected a launch"),
    }
}

#[test]
fn descriptor_without_exec_is_skipped() {
    let p = boot_plan(&lines(&["Name=Firefox", "Hidden=false"]));
    assert!(matches!(p, BootPlan::SkippedNoExec));
}

#[test]
fn unreadable_file_is_a_read_failure() {
    let p = plan_file(&None);
    assert!(matches!(p, BootPlan::ReadFailed));
    let q = plan_file(&Some(lines(&["Exec=x"])));
    assert!(!matches!(q, BootPlan::ReadFailed));
}

#[test]
fn nanny_builds_both_ways() {
    let _a = Nanny::new();
    let _b = Nanny::default();
}
