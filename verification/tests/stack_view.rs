use jflow::render::Renderer;
use jflow::text::{first_line_of, push_chain, push_decimal, push_repeat, same_text};
use jflow::theme::{get_icon_set, get_theme};
use jflow::types::{BookmarkSyncState, Change, ChangeWithStatus};

fn plain() {
    colored::control::set_override(false);
}

fn renderer() -> Renderer {
    Renderer::new(get_theme("default"), get_icon_set("unicode"))
}

fn change(id: &str, description: &str, empty: bool) -> Change {
    Change { change_id: id.to_string(), description: description.to_string(), empty }
}

fn item(id: &str, description: &str, working: bool, bookmark: Option<&str>, state: BookmarkSyncState) -> ChangeWithStatus {
    ChangeWithStatus {
        change: change(id, description, false),
        is_working: working,
        bookmark: bookmark.map(|b| b.to_string()),
        sync_state: state,
    }
}

#[test]
fn box_lines_match_requested_width() {
    plain();
    let r = Renderer::new(get_theme("default"), get_icon_set("unicode"));
    let top = r.box_top_line("Your Stack (2 commits)", 50);
    assert!(top.starts_with('╭'));
    assert!(top.ends_with('╮'));
    assert_eq!(console::measure_text_width(&top), 52);

    let bottom = Renderer::box_bottom_line(50);
    assert!(bottom.starts_with('╰'));
    assert!(bottom.ends_with('╯'));
    assert_eq!(console::measure_text_width(&bottom), 52);
}

#[test]
fn box_stretches_to_longest_content_line() {
    let long_line = "  1/2 ○  wtwpxurp  Add TEMP Sentry token cleanup reminder to README.md";
    let lines = vec!["  short".to_string(), long_line.to_string()];
    let inner = Renderer::inner_width_for(&lines, "Your Stack (2 commits)");
    assert!(
        inner >= console::measure_text_width(long_line) + 2,
        "box must cover the longest line plus margin (inner: {})",
        inner
    );
}

#[test]
fn inner_width_has_floor_for_short_content() {
    let lines = vec!["  x".to_string()];
    let inner = Renderer::inner_width_for(&lines, "Your Stack");
    assert!(inner >= 40, "short content still gets a reasonable box");
}

#[test]
fn suggestions_are_flat_and_left_aligned() {
    plain();
    let r = Renderer::new(get_theme("default"), get_icon_set("unicode"));
    let lines = r.suggestion_lines(&[]);
    assert!(!lines.is_empty());
    for line in &lines {
        assert!(
            line.starts_with("  jf "),
            "commands must be left-aligned with no icon prefix: {:?}",
            line
        );
        assert!(!line.contains("Quick commands"));
    }
}

#[test]
fn suggestions_offer_push_only_for_changes_without_bookmark() {
    plain();
    let r = renderer();
    let working = item("aaaaaaaa", "wip", true, Some("wip"), BookmarkSyncState::LocalOnly);
    let pushed = item("bbbbbbbb", "done", false, Some("feat"), BookmarkSyncState::Synced);
    assert_eq!(r.suggestion_lines(&[working.clone(), pushed.clone()]), vec!["  jf pull  update from remote"]);
    let fresh = item("cccccccc", "new", false, None, BookmarkSyncState::NoBookmark);
    assert_eq!(
        r.suggestion_lines(&[pushed.clone(), fresh.clone(), working.clone()]),
        r.suggestion_lines(&[working.clone(), pushed.clone(), fresh.clone()])
    );
    assert_eq!(
        r.suggestion_lines(&[working, fresh, pushed]),
        vec!["  jf push  push stack to GitHub", "  jf pull  update from remote"]
    );
}

#[test]
fn lone_working_copy_without_bookmark_gets_hint_but_no_push_suggestion() {
    plain();
    let r = renderer();
    let working = item("wwwwwwww", "wip", true, None, BookmarkSyncState::NoBookmark);
    assert_eq!(r.format_status(&working), Some("💡 ready to create PR".to_string()));
    assert_eq!(r.suggestion_lines(&[working.clone()]), vec!["  jf pull  update from remote"]);
    let out = r.stack_lines(&[working], "main").unwrap();
    assert!(out.iter().any(|l| l.contains("💡 ready to create PR")));
    assert!(!out.iter().any(|l| l.contains("jf push")));
}

#[test]
fn box_drawing_and_ascii_measure_one_column_each() {
    for c in '\u{2500}'..='\u{257F}' {
        let s = format!("a{}{}b{}", c, c, c);
        assert_eq!(console::measure_text_width(&s), 5, "{:?}", c);
    }
    let ascii: String = (' '..='~').collect();
    assert_eq!(console::measure_text_width(&ascii), 95);
}

#[test]
fn inner_width_is_widest_line_plus_margin() {
    let lines = vec!["x".repeat(60), "y".repeat(10)];
    assert_eq!(Renderer::inner_width_for(&lines, "Your Stack"), 62);
    // the title needs its width + 2 padding + 8 columns of edge
    assert_eq!(Renderer::inner_width_for(&[], &"t".repeat(35)), 45);
    assert_eq!(Renderer::inner_width_for(&[], ""), 40);
}

#[test]
fn box_top_line_puts_the_title_near_the_left_corner() {
    plain();
    let r = renderer();
    // the title stands one stroke in from the left corner
    assert_eq!(r.box_top_line("ab", 10), "╭─ ab ─────╮");
    assert_eq!(r.box_top_line("ab", 5), "╭─ ab ╮");
    // a title wider than the box gets no edge at all
    assert_eq!(r.box_top_line("a long title", 4), "╭ a long title ╮");
}

#[test]
fn box_bottom_line_is_exact() {
    assert_eq!(Renderer::box_bottom_line(3), "╰───╯");
    assert_eq!(Renderer::box_bottom_line(0), "╰╯");
    assert_eq!(Renderer::box_bottom_line(50).chars().count(), 52);
}

#[test]
fn format_status_hints_changes_without_bookmark() {
    let r = renderer();
    let fresh = item("kkkkkkkk", "x", false, None, BookmarkSyncState::NoBookmark);
    assert_eq!(r.format_status(&fresh), Some("💡 ready to create PR".to_string()));
    // the working copy without a bookmark is ready for a PR too
    let working = item("kkkkkkkk", "x", true, None, BookmarkSyncState::NoBookmark);
    assert_eq!(r.format_status(&working), Some("💡 ready to create PR".to_string()));
    let bookmarked = item("kkkkkkkk", "x", false, Some("b"), BookmarkSyncState::LocalOnly);
    assert_eq!(r.format_status(&bookmarked), None);
}

#[test]
fn render_change_main_line_and_hint() {
    plain();
    let r = renderer();
    let mut lines = vec!["before".to_string()];
    let it = ChangeWithStatus {
        change: change("wtwpxurpzzzz", "Add feature\nmore text", true),
        is_working: false,
        bookmark: None,
        sync_state: BookmarkSyncState::NoBookmark,
    };
    r.render_change(&mut lines, &it, 2, 3);
    assert_eq!(
        lines,
        vec![
            "before".to_string(),
            "  2/3 ○  wtwpxurp  (empty) Add feature".to_string(),
            "         💡 ready to create PR".to_string(),
        ]
    );
}

#[test]
fn render_change_working_copy_without_description() {
    plain();
    let r = renderer();
    let mut lines = Vec::new();
    let it = item("abc", "", true, None, BookmarkSyncState::NoBookmark);
    r.render_change(&mut lines, &it, 1, 1);
    assert_eq!(
        lines,
        vec!["  1/1 ●  abc  (no description)".to_string(), "         💡 ready to create PR".to_string()]
    );
}

#[test]
fn render_change_strips_carriage_return_of_first_line() {
    plain();
    let r = renderer();
    let mut lines = Vec::new();
    let it = item("abcdefghij", "Fix bug\r\nbody", false, Some("fix"), BookmarkSyncState::NeedsPush);
    r.render_change(&mut lines, &it, 10, 12);
    assert_eq!(
        lines,
        vec!["  10/12 ○  abcdefgh  Fix bug".to_string(), "         → fix ↑ needs push".to_string()]
    );
}

#[test]
fn sync_state_lines() {
    plain();
    let r = renderer();
    let cases = vec![
        (BookmarkSyncState::NoBookmark, vec![]),
        (BookmarkSyncState::LocalOnly, vec!["         → feat (local only)"]),
        (BookmarkSyncState::Synced, vec!["         → feat ✓"]),
        (BookmarkSyncState::NeedsPush, vec!["         → feat ↑ needs push"]),
        (BookmarkSyncState::Ahead { count: 3 }, vec!["         → feat ↑3 ahead"]),
        (BookmarkSyncState::Behind { count: 12 }, vec!["         → feat ↓12 behind"]),
    ];
    for (state, expected) in cases {
        let mut lines = Vec::new();
        r.render_sync_state(&mut lines, "feat", &state);
        assert_eq!(lines, expected);
    }
}

#[test]
fn diverged_fork_arms_align_with_fork_point() {
    plain();
    let r = renderer();
    let mut lines = Vec::new();
    let state = BookmarkSyncState::Diverged { local_ahead: 2, remote_ahead: 1, fork_point: Some("abc123".to_string()) };
    r.render_sync_state(&mut lines, "feat", &state);
    // "         → feat ───" is 19 columns wide
    let indent = " ".repeat(19);
    assert_eq!(
        lines,
        vec![
            format!("{}╭──●──●    local (+2)", indent),
            "         → feat ───○ abc123".to_string(),
            format!("{}╰──○    origin (+1) ⚠ diverged", indent),
        ]
    );
    let fork = lines[1].chars().position(|c| c == '○').unwrap();
    assert_eq!(lines[0].chars().position(|c| c == '╭').unwrap(), fork);
    assert_eq!(lines[2].chars().position(|c| c == '╰').unwrap(), fork);
}

#[test]
fn diverged_without_fork_point_or_commits() {
    plain();
    let r = renderer();
    let mut lines = Vec::new();
    let state = BookmarkSyncState::Diverged { local_ahead: 0, remote_ahead: 0, fork_point: None };
    r.render_sync_state(&mut lines, "b", &state);
    let indent = " ".repeat(16);
    assert_eq!(
        lines,
        vec![
            format!("{}╭──    local (+0)", indent),
            "         → b ───○ ???".to_string(),
            format!("{}╰──    origin (+0) ⚠ diverged", indent),
        ]
    );
}

#[test]
fn connection_and_main_lines() {
    plain();
    let r = renderer();
    let mut lines = Vec::new();
    r.push_connection(&mut lines);
    r.push_main(&mut lines, "main@origin");
    assert_eq!(lines, vec!["      │", "      ◆  main@origin"]);
}

#[test]
fn empty_stack_view() {
    plain();
    let r = renderer();
    let out = r.stack_lines(&[], "main@origin").unwrap();
    // the widest line, the note about integrated work, is 43 columns wide
    let bordered = |l: &str| format!("│{}{}│", l, " ".repeat(45 - l.chars().count()));
    let expected = vec![
        String::new(),
        format!("╭─ Your Stack {}╮", "─".repeat(32)),
        bordered(""),
        bordered("  No changes in stack"),
        bordered("  (All work is integrated into main@origin)"),
        bordered("      ◆  main@origin"),
        bordered(""),
        format!("╰{}╯", "─".repeat(45)),
        String::new(),
        "  jf pull  update from remote".to_string(),
        String::new(),
    ];
    assert_eq!(out, expected);
    for line in &out[1..8] {
        assert_eq!(console::measure_text_width(line), 47);
    }
}

#[test]
fn stack_view_numbers_changes_from_the_trunk() {
    plain();
    let r = renderer();
    let head = item("xyzxyzxyz", "Add login screen", true, None, BookmarkSyncState::NoBookmark);
    let lib = item("abcabcabc", "Add REST library", false, Some("rest"), BookmarkSyncState::Synced);
    let out = r.stack_lines(&[head, lib], "main@origin").unwrap();
    let bordered = |l: &str| format!("│{}{}│", l, " ".repeat(40 - console::measure_text_width(l)));
    let expected = vec![
        String::new(),
        format!("╭─ Your Stack (2 commits) {}╮", "─".repeat(15)),
        bordered(""),
        bordered("  2/2 ●  xyzxyzxy  Add login screen"),
        bordered("         💡 ready to create PR"),
        bordered("      │"),
        bordered("  1/2 ○  abcabcab  Add REST library"),
        bordered("         → rest ✓"),
        bordered("      │"),
        bordered("      ◆  main@origin"),
        bordered(""),
        format!("╰{}╯", "─".repeat(40)),
        String::new(),
        "  jf pull  update from remote".to_string(),
        String::new(),
    ];
    assert_eq!(out, expected);
    for line in &out[1..12] {
        assert_eq!(console::measure_text_width(line), 42);
    }
}

#[test]
fn stack_view_box_widens_for_long_lines() {
    plain();
    let r = renderer();
    let long = "d".repeat(60);
    let c = item("qqqqqqqq", &long, false, None, BookmarkSyncState::NoBookmark);
    let out = r.stack_lines(&[c], "main").unwrap();
    // main line: 2 + 3 + 1 + 1 + 2 + 8 + 2 + 60 = 79 columns, plus a margin of 2
    assert_eq!(out[8], format!("╰{}╯", "─".repeat(81)));
    assert_eq!(out[3], format!("│  1/1 ○  qqqqqqqq  {}  │", long));
    assert_eq!(console::measure_text_width(&out[1]), 83);
    assert!(out.iter().any(|l| l == "  jf push  push stack to GitHub"));
}

#[test]
fn message_lines() {
    plain();
    let r = renderer();
    assert_eq!(r.error_line("boom"), "✗ boom");
    assert_eq!(r.success_line("done"), "✓ done");
    assert_eq!(r.info_line("note"), "ℹ note");
}

#[test]
fn themes_and_icon_sets_by_name() {
    let d = get_theme("default");
    assert_eq!(d.red, jflow::theme::Color::Red);
    assert_eq!(get_theme("unknown"), get_theme("catppuccin"));
    assert_eq!(get_icon_set("ascii").working, "*");
    assert_eq!(get_icon_set("whatever").working, "●");
}

#[test]
fn decimal_and_text_helpers() {
    let mut s = String::new();
    push_decimal(&mut s, 0);
    s.push(' ');
    push_decimal(&mut s, 1907);
    s.push(' ');
    push_decimal(&mut s, usize::MAX);
    assert_eq!(s, format!("0 1907 {}", usize::MAX));
    let mut c = String::new();
    push_chain(&mut c, "●", 3);
    assert_eq!(c, "●──●──●");
    let mut r = String::new();
    push_repeat(&mut r, "ab", 3);
    assert_eq!(r, "ababab");
    assert_eq!(first_line_of(""), None);
    assert_eq!(first_line_of("\n"), Some(""));
    assert_eq!(first_line_of("a\r"), Some("a\r"));
    assert_eq!(first_line_of("one\r\ntwo"), Some("one"));
    assert_eq!(first_line_of("only"), Some("only"));
    assert!(same_text("nord", "nord"));
    assert!(!same_text("nord", "nor"));
    assert!(!same_text("nord", "norD"));
}

#[test]
fn short_id_keeps_ids_shorter_than_eight_bytes() {
    plain();
    let r = renderer();
    let mut lines = Vec::new();
    let it = item("éabcdefg", "x", false, Some("b"), BookmarkSyncState::Synced);
    // 'é' takes two bytes, so the first eight bytes are seven characters
    r.render_change(&mut lines, &it, 1, 1);
    assert_eq!(lines[0], "  1/1 ○  éabcdef  x");
}
