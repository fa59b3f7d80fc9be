use claude_statusline::jj_status::JjInfo;
use claude_statusline::output::StatusLine;

#[test]
fn test_format_minimal_statusline() {
    let status = StatusLine {
        directory: "~/src/grabby".to_string(),
        jj_info: None,
        model_name: "Example Model 3.5".to_string(),
        output_style: Some("default".to_string()),
    };
    
    let formatted = status.format();
    // With colors and emojis, check for expected elements
    assert!(formatted.contains("ðŸ“‚ "));
    assert!(formatted.contains("~/src/grabby"));
    assert!(formatted.contains("ðŸ§  "));
    assert!(formatted.contains("Example Model 3.5"));
    assert!(formatted.contains("â€§")); // Should contain separator dots
    assert!(!formatted.contains("ðŸŽ­")); // Should not show default style
    assert!(!formatted.contains("(")); // Should not contain parentheses
}

#[test]
fn test_format_with_jj_info() {
    let jj_info = JjInfo {
        change_id: Some("abc123".to_string()),
        bookmarks: vec!["main".to_string()],
        has_conflict: false,
        has_changes: true,
    };
    
    let status = StatusLine {
        directory: "~/src/grabby".to_string(),
        jj_info: Some(jj_info),
        model_name: "Example Model 3.5".to_string(),
        output_style: Some("default".to_string()),
    };
    
    let formatted = status.format();
    println!("Formatted output: '{}'", formatted);
    // With colors and emojis, check for expected elements
    assert!(formatted.contains("ðŸ“‚ "));
    assert!(formatted.contains("~/src/grabby"));
    assert!(formatted.contains("âš¡ ")); // Should show lightning with space for changes
    assert!(formatted.contains("abc123")); // Change ID should be present
    assert!(formatted.contains("main")); // Bookmark should be present
    assert!(formatted.contains("*")); // Changes asterisk should be present
    assert!(formatted.contains("ðŸ§  "));
    assert!(formatted.contains("Example Model 3.5"));
    assert!(formatted.contains("â€§")); // Should contain separator dots
    assert!(!formatted.contains("(")); // Should not contain parentheses
}

#[test]
fn test_format_with_output_style() {
    let status = StatusLine {
        directory: "~/src/grabby".to_string(),
        jj_info: None,
        model_name: "Example Model 3.5".to_string(),
        output_style: Some("Learning".to_string()),
    };
    
    let formatted = status.format();
    assert!(formatted.contains("ðŸ“‚ "));
    assert!(formatted.contains("~/src/grabby"));
    assert!(formatted.contains("ðŸ§  "));
    assert!(formatted.contains("Example Model 3.5"));
    assert!(formatted.contains("ðŸŽ­ ")); // Should show theater masks with space
    assert!(formatted.contains("Learning"));
    assert!(formatted.contains("â€§")); // Should contain separator dots
}

#[test]
fn test_format_full_statusline() {
    let jj_info = JjInfo {
        change_id: Some("abc123".to_string()),
        bookmarks: vec!["main".to_string()],
        has_conflict: true,
        has_changes: true,
    };
    
    let status = StatusLine {
        directory: "~/src/grabby".to_string(),
        jj_info: Some(jj_info),
        model_name: "Example Model 3.5".to_string(),
        output_style: Some("Explanatory".to_string()),
    };
    
    let formatted = status.format();
    assert!(formatted.contains("ðŸ“‚ "));
    assert!(formatted.contains("~/src/grabby"));
    assert!(formatted.contains("âš¡ ")); // Should show lightning with space for changes
    assert!(formatted.contains("abc123")); // Change ID should be present
    assert!(formatted.contains("main")); // Bookmark should be present
    assert!(formatted.contains("conflict")); // Conflict indicator should be present
    assert!(formatted.contains("*")); // Changes asterisk should be present
    assert!(formatted.contains("ðŸ§  "));
    assert!(formatted.contains("Example Model 3.5"));
    assert!(formatted.contains("ðŸŽ­ "));
    assert!(formatted.contains("Explanatory"));
    assert!(formatted.contains("â€§")); // Should contain separator dots
    assert!(!formatted.contains("(")); // Should not contain parentheses
}

#[test]
fn test_format_with_clean_jj_status() {
    let jj_info = JjInfo {
        change_id: Some("abc123".to_string()),
        bookmarks: vec!["main".to_string()],
        has_conflict: false,
        has_changes: false, // No changes = clean
    };
    
    let status = StatusLine {
        directory: "~/src/grabby".to_string(),
        jj_info: Some(jj_info),
        model_name: "Example Model 3.5".to_string(),
        output_style: Some("default".to_string()),
    };
    
    let formatted = status.format();
    assert!(formatted.contains("ðŸ“‚ "));
    assert!(formatted.contains("~/src/grabby"));
    assert!(formatted.contains("ðŸ”€ ")); // Should show twisted arrows with space for clean state
    assert!(formatted.contains("abc123")); // Change ID should be present
    assert!(formatted.contains("main")); // Bookmark should be present
    assert!(!formatted.contains("*")); // Should not have changes asterisk
    assert!(formatted.contains("ðŸ§  "));
    assert!(formatted.contains("Example Model 3.5"));
    assert!(formatted.contains("â€§")); // Should contain separator dots
    assert!(!formatted.contains("(")); // Should not contain parentheses
}

#[test]
fn test_null_output_style_not_shown() {
    let status = StatusLine {
        directory: "~/src/grabby".to_string(),
        jj_info: None,
        model_name: "Example Model 3.5".to_string(),
        output_style: Some("null".to_string()),
    };
    
    let formatted = status.format();
    assert!(!formatted.contains("[null]"));
}

use claude_statusline::input::{ClaudeInput, ModelInfo, OutputStyle, WorkspaceInfo};
use claude_statusline::output::{
    color_of, Role, Segment, CLEAN_MARKER, DIRECTORY_MARKER, DIRTY_MARKER, MODEL_MARKER,
    SEPARATOR, STYLE_MARKER,
};

fn line(jj_info: Option<JjInfo>, output_style: Option<&str>) -> StatusLine {
    StatusLine {
        directory: "~/src/grabby".to_string(),
        jj_info,
        model_name: "Example Model 3.5".to_string(),
        output_style: output_style.map(|s| s.to_string()),
    }
}

fn record(has_conflict: bool, has_changes: bool) -> JjInfo {
    JjInfo {
        change_id: Some("abc123".to_string()),
        bookmarks: vec!["main".to_string(), "dev".to_string()],
        has_conflict,
        has_changes,
    }
}

fn segments(status: &StatusLine) -> Vec<Segment> {
    status.spans().iter().map(|s| s.segment).collect()
}

fn input(cwd: &str, style: &str) -> ClaudeInput {
    ClaudeInput {
        session_id: "session-123".to_string(),
        transcript_path: "/tmp/transcript.json".to_string(),
        cwd: cwd.to_string(),
        model: ModelInfo {
            id: "example-model-20241022".to_string(),
            display_name: "Example Model 3.5".to_string(),
        },
        workspace: WorkspaceInfo { current_dir: cwd.to_string(), project_dir: cwd.to_string() },
        version: "1.0.71".to_string(),
        output_style: OutputStyle { name: style.to_string() },
    }
}

#[test]
fn spans_of_a_full_line() {
    let status = line(Some(record(true, true)), Some("Explanatory"));
    let spans = status.spans();
    let texts: Vec<&str> = spans.iter().map(|s| s.text.as_str()).collect();
    assert_eq!(
        texts,
        vec![
            DIRECTORY_MARKER, "~/src/grabby", SEPARATOR, DIRTY_MARKER, "abc123", " ", "main", " ",
            "dev", " ", "conflict", "*", SEPARATOR, MODEL_MARKER, "Example Model 3.5", SEPARATOR,
            STYLE_MARKER, "Explanatory",
        ]
    );
    let roles: Vec<Option<Role>> = spans.iter().map(|s| s.role).collect();
    assert_eq!(roles[1], Some(Role::Directory));
    assert_eq!(roles[4], Some(Role::ChangeId));
    assert_eq!(roles[6], Some(Role::Bookmark));
    assert_eq!(roles[10], Some(Role::ChangeId));
    assert_eq!(roles[11], None);
    assert_eq!(roles[14], Some(Role::Model));
    assert_eq!(roles[17], Some(Role::Style));
}

#[test]
fn segments_come_in_fixed_order() {
    let status = line(Some(record(false, false)), Some("Learning"));
    let segs = segments(&status);
    let mut last = 0;
    for s in segs {
        let rank = match s {
            Segment::Directory => 0,
            Segment::Vcs => 1,
            Segment::Model => 2,
            Segment::Style => 3,
        };
        assert!(rank >= last);
        last = rank;
    }
    assert_eq!(last, 3);
}

#[test]
fn style_segment_only_for_a_real_style() {
    for (style, shown) in [(None, false), (Some("default"), false), (Some("null"), false), (Some("Learning"), true)] {
        let status = line(None, style);
        assert_eq!(segments(&status).contains(&Segment::Style), shown);
        assert_eq!(status.format().contains(STYLE_MARKER), shown);
    }
}

#[test]
fn null_style_leaves_no_style_segment() {
    let status = line(None, Some("null"));
    assert!(!segments(&status).contains(&Segment::Style));
    let formatted = status.format();
    assert!(!formatted.contains(STYLE_MARKER));
    assert!(!formatted.contains("null"));
}

#[test]
fn no_repository_leaves_no_vcs_segment() {
    for jj in [None, Some(JjInfo::empty())] {
        let status = line(jj, None);
        assert!(!segments(&status).contains(&Segment::Vcs));
        let formatted = status.format();
        assert!(!formatted.contains(CLEAN_MARKER));
        assert!(!formatted.contains(DIRTY_MARKER));
        assert_eq!(formatted.matches(SEPARATOR).count(), 1);
    }
}

#[test]
fn marker_follows_pending_changes() {
    let dirty = line(Some(record(false, true)), None).format();
    assert!(dirty.contains(DIRTY_MARKER) && !dirty.contains(CLEAN_MARKER));
    let clean = line(Some(record(true, false)), None).format();
    assert!(clean.contains(CLEAN_MARKER) && !clean.contains(DIRTY_MARKER));
}

#[test]
fn format_colours_its_pieces() {
    let formatted = line(None, None).format();
    assert!(formatted.contains("\u{1b}["));
    assert!(formatted.contains("\u{1b}[0m"));
    assert!(formatted.starts_with(DIRECTORY_MARKER));
}

#[test]
fn palette() {
    assert_eq!(color_of(Role::Separator), (96, 96, 96));
    assert_eq!(color_of(Role::Directory), (64, 224, 208));
    assert_eq!(color_of(Role::ChangeId), (200, 80, 140));
    assert_eq!(color_of(Role::Bookmark), (255, 20, 147));
    assert_eq!(color_of(Role::Model), (255, 140, 0));
    assert_eq!(color_of(Role::Style), (50, 205, 50));
}

#[test]
fn pipeline_abbreviates_under_home() {
    let status = StatusLine::from_input(&input("/Users/gak/src/grabby", "default"), Some("/Users/gak"), JjInfo::empty());
    assert_eq!(status.directory, "~/src/grabby");
    assert!(status.jj_info.is_none());
    assert_eq!(status.model_name, "Example Model 3.5");
    assert_eq!(status.output_style, None);
}

#[test]
fn pipeline_at_home_shows_tilde() {
    let status = StatusLine::from_input(&input("/Users/gak", "Learning"), Some("/Users/gak"), JjInfo::empty());
    assert_eq!(status.directory, "~");
    assert_eq!(status.output_style, Some("Learning".to_string()));
}

#[test]
fn pipeline_cuts_long_path_outside_home() {
    let cwd = "/very/long/path/to/some/deeply/nested/directory/with/many/components";
    let status = StatusLine::from_input(&input(cwd, "null"), Some("/Users/gak"), JjInfo::empty());
    assert_eq!(status.directory, "components");
    assert_eq!(status.output_style, None);
    let formatted = status.format();
    assert!(formatted.contains("components"));
    assert!(formatted.contains("Example Model 3.5"));
}

#[test]
fn pipeline_keeps_a_record_with_change_id() {
    let status = StatusLine::from_input(&input("/repo", "Explanatory"), None, record(false, true));
    assert_eq!(status.directory, "/repo");
    assert!(status.jj_info.is_some());
    let formatted = status.format();
    assert!(formatted.contains(DIRTY_MARKER));
    assert!(formatted.contains("Explanatory"));
}

#[test]
fn test_brighter_pink_branch_names() {
    let with_branch = line(
        Some(JjInfo {
            change_id: Some("abc123".to_string()),
            bookmarks: vec!["feature-branch".to_string()],
            has_conflict: false,
            has_changes: false,
        }),
        None,
    );
    let no_branch = line(
        Some(JjInfo {
            change_id: Some("abc123".to_string()),
            bookmarks: vec![],
            has_conflict: false,
            has_changes: false,
        }),
        None,
    );
    let role_of = |status: &StatusLine, text: &str| {
        status.spans().iter().find(|s| s.text == text).map(|s| s.role)
    };
    assert_eq!(role_of(&with_branch, "feature-branch"), Some(Some(Role::Bookmark)));
    assert_eq!(role_of(&with_branch, "abc123"), Some(Some(Role::ChangeId)));
    assert_eq!(role_of(&no_branch, "abc123"), Some(Some(Role::ChangeId)));
    assert!(!no_branch.spans().iter().any(|s| s.role == Some(Role::Bookmark)));
    assert!(with_branch.format().contains("feature-branch"));
    assert!(!no_branch.format().contains("feature-branch"));
    assert_eq!(color_of(Role::Bookmark), (255, 20, 147));
    assert_eq!(color_of(Role::ChangeId), (200, 80, 140));
}

#[test]
fn vcs_segment_spells_the_rendered_text() {
    let info = record(true, true);
    let rendered = info.format().unwrap();
    let status = line(Some(info), None);
    let texts: String = status
        .spans()
        .iter()
        .filter(|s| s.segment == Segment::Vcs)
        .skip(2)
        .map(|s| s.text.clone())
        .collect();
    assert_eq!(texts, rendered);
    assert_eq!(texts, "abc123 main dev conflict*");
}

fn strip_colour_codes(s: &str) -> String {
    let mut out = String::new();
    let mut chars = s.chars().peekable();
    while let Some(c) = chars.next() {
        if c == '\u{1b}' && chars.peek() == Some(&'[') {
            chars.next();
            while let Some(&d) = chars.peek() {
                chars.next();
                if d == 'm' {
                    break;
                }
            }
        } else {
            out.push(c);
        }
    }
    out
}

#[test]
fn format_without_colour_codes_is_the_plain_line() {
    let status = line(Some(record(false, true)), Some("Learning"));
    let expected = format!(
        "{}~/src/grabby{}{}abc123 main dev*{}{}Example Model 3.5{}{}Learning",
        DIRECTORY_MARKER, SEPARATOR, DIRTY_MARKER, SEPARATOR, MODEL_MARKER, SEPARATOR, STYLE_MARKER
    );
    assert_eq!(strip_colour_codes(&status.format()), expected);
    let status = line(None, Some("null"));
    let expected = format!("{}~/src/grabby{}{}Example Model 3.5", DIRECTORY_MARKER, SEPARATOR, MODEL_MARKER);
    assert_eq!(strip_colour_codes(&status.format()), expected);
}
