use claude_statusline::jj_status::JjInfo;

#[test]
fn test_empty_jj_info_formats_to_none() {
    let info = JjInfo::empty();
    assert_eq!(info.format(), None);
}

#[test]
fn test_jj_info_with_change_id_only() {
    let info = JjInfo {
        change_id: Some("abc123".to_string()),
        bookmarks: Vec::new(),
        has_conflict: false,
        has_changes: false,
    };
    assert_eq!(info.format(), Some("abc123".to_string()));
}

#[test]
fn test_jj_info_with_change_id_and_bookmarks() {
    let info = JjInfo {
        change_id: Some("abc123".to_string()),
        bookmarks: vec!["main".to_string(), "feature".to_string()],
        has_conflict: false,
        has_changes: false,
    };
    assert_eq!(info.format(), Some("abc123 main feature".to_string()));
}

#[test]
fn test_jj_info_with_changes() {
    let info = JjInfo {
        change_id: Some("abc123".to_string()),
        bookmarks: vec!["main".to_string()],
        has_conflict: false,
        has_changes: true,
    };
    assert_eq!(info.format(), Some("abc123 main*".to_string()));
}

#[test]
fn test_jj_info_with_conflict() {
    let info = JjInfo {
        change_id: Some("abc123".to_string()),
        bookmarks: vec!["main".to_string()],
        has_conflict: true,
        has_changes: false,
    };
    assert_eq!(info.format(), Some("abc123 main conflict".to_string()));
}

#[test]
fn test_jj_info_with_everything() {
    let info = JjInfo {
        change_id: Some("abc123".to_string()),
        bookmarks: vec!["main".to_string()],
        has_conflict: true,
        has_changes: true,
    };
    assert_eq!(info.format(), Some("abc123 main conflict*".to_string()));
}

use claude_statusline::jj_status::{parse_revision, JjProbe, JjQuery, QueryOutput};

fn out(success: bool, stdout: &str) -> QueryOutput {
    QueryOutput { success, stdout: stdout.to_string() }
}

fn probe(root: QueryOutput, revision: QueryOutput, diff: QueryOutput) -> (JjInfo, Vec<JjQuery>) {
    let mut asked = Vec::new();
    let mut p = JjProbe::new();
    while let Some(q) = p.next_query() {
        let answer = match q {
            JjQuery::Root => &root,
            JjQuery::Revision => &revision,
            JjQuery::Diff => &diff,
        };
        asked.push(q);
        p = p.advance(answer);
    }
    (p.into_info(), asked)
}

#[test]
fn parse_full_revision_line() {
    let info = parse_revision("  xyz789 main feature conflict\n").unwrap();
    assert_eq!(info.change_id, Some("xyz789".to_string()));
    assert_eq!(info.bookmarks, vec!["main".to_string(), "feature".to_string()]);
    assert!(info.has_conflict);
    assert!(!info.has_changes);
}

#[test]
fn parse_change_id_only() {
    let info = parse_revision("qwerty \n").unwrap();
    assert_eq!(info.change_id, Some("qwerty".to_string()));
    assert!(info.bookmarks.is_empty());
    assert!(!info.has_conflict);
}

#[test]
fn parse_stops_labels_at_conflict_word() {
    let info = parse_revision("abc conflict later").unwrap();
    assert_eq!(info.change_id, Some("abc".to_string()));
    assert!(info.bookmarks.is_empty());
    assert!(info.has_conflict);
    let info = parse_revision("abc one\ttwo  conflict three").unwrap();
    assert_eq!(info.bookmarks, vec!["one".to_string(), "two".to_string()]);
    assert!(info.has_conflict);
}

#[test]
fn parse_conflict_marker_is_a_substring_test() {
    let info = parse_revision("abc conflicting").unwrap();
    assert_eq!(info.bookmarks, vec!["conflicting".to_string()]);
    assert!(info.has_conflict);
    let info = parse_revision("abc\tconflict").unwrap();
    assert!(info.bookmarks.is_empty());
    assert!(!info.has_conflict);
}

#[test]
fn parse_conflict_marker_is_read_from_the_line_as_printed() {
    let info = parse_revision(" conflict").unwrap();
    assert_eq!(info.change_id, Some("conflict".to_string()));
    assert!(info.bookmarks.is_empty());
    assert!(info.has_conflict);
}

#[test]
fn parse_degenerate_lines() {
    assert!(parse_revision("").is_none());
    assert!(parse_revision(" \n\t ").is_none());
    assert!(parse_revision("@").is_none());
    assert!(parse_revision("  @\n").is_none());
    assert!(parse_revision("@ main").is_some());
}

#[test]
fn probe_outside_a_repository_is_empty() {
    let (info, asked) = probe(out(false, ""), out(true, "abc main"), out(true, "M a.rs"));
    assert!(info.change_id.is_none());
    assert!(info.bookmarks.is_empty());
    assert!(!info.has_conflict && !info.has_changes);
    assert_eq!(asked.len(), 1);
    assert_eq!(info.format(), None);
}

#[test]
fn probe_with_failed_log_is_empty() {
    let (info, asked) = probe(out(true, "/repo\n"), out(false, "abc main"), out(true, "M a.rs"));
    assert!(info.change_id.is_none());
    assert_eq!(asked.len(), 2);
}

#[test]
fn probe_with_degenerate_log_is_empty() {
    let (info, asked) = probe(out(true, "/repo\n"), out(true, "@\n"), out(true, "M a.rs"));
    assert!(info.change_id.is_none());
    assert_eq!(asked.len(), 2);
}

#[test]
fn probe_of_dirty_working_copy() {
    let (info, asked) = probe(
        out(true, "/repo\n"),
        out(true, "abc123 main conflict\n"),
        out(true, "M src/lib.rs\n"),
    );
    assert_eq!(asked.len(), 3);
    assert_eq!(info.format(), Some("abc123 main conflict*".to_string()));
}

#[test]
fn probe_of_clean_working_copy() {
    let (info, _) = probe(out(true, "/repo\n"), out(true, "abc123 main\n"), out(true, ""));
    assert_eq!(info.format(), Some("abc123 main".to_string()));
    let (info, _) = probe(out(true, "/repo\n"), out(true, "abc123 main\n"), out(false, "error"));
    assert!(!info.has_changes);
}

#[test]
fn rendered_star_and_conflict_follow_the_flags() {
    for has_conflict in [false, true] {
        for has_changes in [false, true] {
            let info = JjInfo {
                change_id: Some("k".to_string()),
                bookmarks: vec!["a".to_string(), "b".to_string()],
                has_conflict,
                has_changes,
            };
            let text = info.format().unwrap();
            assert_eq!(text.ends_with('*'), has_changes);
            assert_eq!(text.contains("conflict"), has_conflict);
        }
    }
}

#[test]
fn empty_record_ignores_other_fields() {
    let info = JjInfo {
        change_id: None,
        bookmarks: vec!["main".to_string()],
        has_conflict: true,
        has_changes: true,
    };
    assert_eq!(info.format(), None);
}
