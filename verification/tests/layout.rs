use oflh::layout::{
    confirmation_buttons, table_summary, details_summary, empty_table, row_note, table_columns,
    activity, ancestry_rows, cursor_offset, joined_row, offset_after, place_hint, details_layout, dialog_layout, distinct_count, footer_hints, help_lines,
    locked_file_total, main_layout, margin, preview_start, process_access, review_lines, sort_label,
    too_small, window_start, wrap_hints, DetailsLayout, DialogLayout, MainLayout, Tone,
};
use oflh::model::{Access, Identity, LockEvidence, Process, Snapshot, Usage};
use oflh::path::Target;
use oflh::ranking::Sort;
use oflh::state::{ActionTarget, KeyCode, KeyEvent, Screen};
use oflh::tui::{dialog_lines, footer_lines, row_file_count, App};

fn usage(path: &[u8], access: Access, locked: bool) -> Usage {
    Usage {
        path: path.to_vec(),
        access,
        lock: if locked { Some(LockEvidence::Kernel("POSIX WRITE".into())) } else { None },
        ..Usage::default()
    }
}

fn process(pid: u32, usages: Vec<Usage>) -> Process {
    let mut p = Process::default();
    p.identity = Identity { pid, started: 1, started_sub: 0 };
    p.name = format!("p{pid}");
    p.usages = usages;
    p
}

fn app_with(processes: Vec<Process>) -> App {
    let target = Target { path: b"/data".to_vec(), directory: true, identity: None };
    let mut app = App::new(target, "v1".into());
    app.replace(Snapshot { processes, warnings: vec!["one\u{7}warning".into()] });
    app
}

#[test]
fn hints_wrap_as_whole_phrases() {
    let hints = vec!["Tab / ←→ choose", "Enter confirm", "Esc cancel"];
    assert_eq!(wrap_hints(&hints, 80), ["Tab / ←→ choose · Enter confirm · Esc cancel"]);
    assert_eq!(wrap_hints(&hints, 31), ["Tab / ←→ choose · Enter confirm", "Esc cancel"]);
    assert_eq!(wrap_hints(&hints, 30), ["Tab / ←→ choose", "Enter confirm · Esc cancel"]);
    assert_eq!(wrap_hints(&hints, 5), ["Tab / ←→ choose", "Enter confirm", "Esc cancel"]);
    assert!(wrap_hints(&Vec::new(), 10).is_empty());
    // Wide characters count twice.
    assert_eq!(wrap_hints(&vec!["日本", "語"], 8), ["日本", "語"]);
    assert_eq!(wrap_hints(&vec!["日本", "語"], 9), ["日本 · 語"]);
}

#[test]
fn narrow_footers_offer_fewer_hints() {
    assert_eq!(footer_hints(Screen::Main, false, 80).len(), 17);
    assert_eq!(footer_hints(Screen::Main, false, 59).len(), 9);
    assert_eq!(footer_hints(Screen::Main, true, 59), ["↑↓ process", "k stop target", "x force kill target", "Tab/← back"]);
    assert_eq!(footer_hints(Screen::Details, false, 40)[2], "l locks");
    assert_eq!(footer_hints(Screen::Help, false, 40), ["↑↓ scroll", "R GitHub", "D Donate", "Esc back"]);
}

#[test]
fn footer_shows_status_rule_and_keys() {
    let mut a = app_with(vec![process(7, vec![usage(b"/data/a", Access::Read, false)])]);
    let lines = footer_lines(20, &a);
    assert_eq!(lines[0].tone, Tone::Muted);
    assert_eq!(lines[0].text, "Enter inspect · Space select · m RAM / c CPU / n name / p PID");
    assert_eq!(lines[1].text, "Results may be incomplete · ? details");
    assert_eq!(lines[2].text, "─".repeat(20));
    assert!(lines[3..].iter().all(|l| l.tone == Tone::Accent));
    assert_eq!(lines[3].text, "1/2 tabs · / search");
    a.key(KeyEvent::new(KeyCode::Char('/')));
    let editing = footer_lines(20, &a);
    assert_eq!(editing.len(), 1);
    assert_eq!(editing[0].text, "Enter apply · Esc cancel · ↑↓ browse");
}

#[test]
fn windows_keep_the_cursor_visible() {
    assert_eq!(window_start(0, 100, 10), 0);
    assert_eq!(window_start(9, 100, 10), 0);
    assert_eq!(window_start(10, 100, 10), 1);
    assert_eq!(window_start(99, 100, 10), 90);
    assert_eq!(window_start(3, 5, 10), 0);
    assert_eq!(preview_start(3, 25, 10), 20);
    assert_eq!(preview_start(1, 25, 10), 10);
    assert_eq!(preview_start(5, 0, 0), 0);
    assert_eq!(ancestry_rows(0, 3, 10), [0, 1, 2]);
    assert_eq!(ancestry_rows(0, 10, 3), [0, 1, 9]);
    assert_eq!(ancestry_rows(8, 10, 3), [7, 8, 9]);
}

#[test]
fn screens_divide_their_space() {
    assert_eq!(margin(120), (2, 116));
    assert_eq!(margin(8), (0, 8));
    assert!(too_small(19, 40));
    assert!(too_small(80, 11));
    assert!(!too_small(20, 12));
    assert_eq!(
        main_layout(116, 30, 4, false, false),
        MainLayout { footer: 4, body: 19, page: 18, panel: 38, table: 75 }
    );
    assert_eq!(main_layout(100, 30, 4, true, false), MainLayout { footer: 4, body: 19, page: 18, panel: 100, table: 0 });
    assert_eq!(main_layout(100, 30, 30, false, false), MainLayout { footer: 21, body: 2, page: 1, panel: 0, table: 100 });
    assert_eq!(
        details_layout(80, 20, 3),
        DetailsLayout { head: 3, compact: true, footer: 3, body: 6, page: 4, wide: true }
    );
    assert_eq!(dialog_layout(20, 4), DialogLayout { footer: 4, body: 14, page: 14 });
    assert_eq!(dialog_layout(3, 5), DialogLayout { footer: 3, body: 0, page: 1 });
}

#[test]
fn summaries_of_access_and_files() {
    let p = process(
        1,
        vec![
            usage(b"/a", Access::Read, true),
            usage(b"/b", Access::Write, false),
            usage(b"/a", Access::Execute, true),
            usage(b"/c", Access::Mapped, true),
        ],
    );
    assert_eq!(process_access(&p, &[0, 1]), Access::ReadWrite);
    assert_eq!(process_access(&p, &[1, 2]), Access::Write);
    assert_eq!(process_access(&p, &[2, 3]), Access::Execute);
    assert_eq!(process_access(&p, &[]), Access::Unknown);
    assert_eq!(locked_file_total(&p, &[0, 1, 2, 3]), 2);
    assert_eq!(locked_file_total(&p, &[1]), 0);
    assert_eq!(distinct_count(&vec![b"/a".to_vec(), b"/b".to_vec(), b"/a".to_vec()]), 2);
    assert_eq!(sort_label(Sort::Relevance, true), "pid");
    assert_eq!(sort_label(Sort::Relevance, false), "match");
    assert_eq!(sort_label(Sort::Memory, true), "RAM");
    assert_eq!(activity(false, true, true, 6), "◑ scanning");
    assert_eq!(activity(true, true, true, 0), "requesting termination…");
    assert_eq!(activity(false, false, true, 0), "LIVE · every 5s");
    assert_eq!(activity(false, false, false, 0), "MANUAL · r refresh");
}

#[test]
fn table_counts_files_once() {
    let a = app_with(vec![
        process(1, vec![usage(b"/data/x", Access::Read, false)]),
        process(2, vec![usage(b"/data/x", Access::Write, false)]),
        process(3, vec![usage(b"/data/y", Access::Write, false)]),
    ]);
    assert_eq!(a.rows.len(), 3);
    assert_eq!(row_file_count(&a), 2);
}

#[test]
fn review_and_help_text() {
    let pending = vec![
        ActionTarget { identity: Identity { pid: 42, started: 1, started_sub: 0 }, name: "sh\u{1b}".into() },
        ActionTarget { identity: Identity { pid: 4000000000, started: 1, started_sub: 0 }, name: "x".into() },
    ];
    let lines = review_lines(true, true, &pending);
    assert_eq!(lines[0].text, "FORCE KILL 2 processes?");
    assert_eq!(lines[0].tone, Tone::Heading);
    assert_eq!(lines[1].text, "Immediate termination: no cleanup. Unsaved work may be lost.");
    assert_eq!(lines[2].tone, Tone::Alert);
    assert_eq!(lines[5].text, format!("  {:<9} {}", 42, "sh\u{fffd}"));
    assert_eq!(lines[6].text, "  4000000000 x");
    let calm = review_lines(false, false, &Vec::new());
    assert_eq!(calm[0].text, "Terminate 0 processes?");
    assert_eq!(calm.len(), 4);
    let help = help_lines(&vec!["w\u{7}".into()]);
    assert_eq!(help[0].text, "LINKS");
    assert_eq!(help[5].text, "SCAN DETAILS");
    assert_eq!(help[6].text, "w\u{fffd}");
    assert_eq!(help[8].text, "OPEN FILE LOCK HANDLE");
    assert_eq!(help.last().unwrap().text, "Permissions, namespaces and races may limit visibility.");
    assert_eq!(help_lines(&Vec::new()).len(), help.len() - 2);
}

#[test]
fn dialogs_follow_the_screen_and_frame_is_recorded() {
    let mut a = app_with(vec![process(9, vec![usage(b"/data/z", Access::Read, false)])]);
    assert_eq!(dialog_lines(&a)[0].text, "LINKS");
    a.key(KeyEvent::new(KeyCode::Char('k')));
    assert_eq!(a.screen, Screen::Confirm);
    assert_eq!(dialog_lines(&a)[0].text, "Terminate 1 processes?");
    a.set_frame(90, 33);
    assert_eq!((a.width, a.height), (90, 33));
    a.set_page(7);
    assert_eq!(a.page, 7);
    a.scroll = 12;
    a.clamp_scroll(5);
    assert_eq!(a.scroll, 4);
    a.clamp_scroll(0);
    assert_eq!(a.scroll, 0);
}

#[test]
fn search_cursor_counts_columns() {
    assert_eq!(cursor_offset("abc", 0, 40), 2);
    assert_eq!(cursor_offset("abc", 2, 40), 4);
    assert_eq!(cursor_offset("abc", 9, 40), 5);
    assert_eq!(cursor_offset("日本", 2, 40), 6);
    assert_eq!(cursor_offset("a\u{7}b", 3, 40), 4);
    assert_eq!(cursor_offset("abcdefgh", 8, 5), 4);
}

#[test]
fn phrases_are_placed_by_measured_width() {
    let chars = |s: &str| s.chars().collect::<Vec<char>>();
    assert_eq!(joined_row(&Vec::new(), &chars("a")), chars("a"));
    assert_eq!(joined_row(&chars("a"), &chars("b")), chars("a · b"));
    let mut rows: Vec<String> = Vec::new();
    let mut row = chars("first");
    place_hint(&mut rows, &mut row, chars("second"), 14, 20);
    assert!(rows.is_empty());
    assert_eq!(row, chars("first · second"));
    place_hint(&mut rows, &mut row, chars("third"), 22, 20);
    assert_eq!(rows, ["first · second"]);
    assert_eq!(row, chars("third"));
    let mut empty = Vec::new();
    place_hint(&mut rows, &mut empty, chars("wide phrase"), 99, 5);
    assert_eq!(empty, chars("wide phrase"));
    assert_eq!(rows.len(), 1);
    assert_eq!(offset_after(&vec![Some(1), None, Some(2)], 40), 5);
    assert_eq!(offset_after(&vec![Some(usize::MAX), Some(usize::MAX)], 10), 9);
    assert_eq!(offset_after(&Vec::new(), 3), 2);
}

#[test]
fn review_buttons_point_at_the_focus() {
    assert_eq!(confirmation_buttons(false, false), ("▶ Cancel ".to_string(), "  Terminate ".to_string()));
    assert_eq!(confirmation_buttons(true, true), ("  Cancel ".to_string(), "▶ Force kill ".to_string()));
}

#[test]
fn table_text_and_details_summary() {
    assert_eq!((table_columns(94), table_columns(93), table_columns(62), table_columns(61)), (8, 5, 5, 4));
    assert!(empty_table(true, true, true).starts_with("Discovering processes"));
    assert!(empty_table(true, false, false).starts_with("No processes match your filter."));
    assert!(empty_table(false, false, true).starts_with("No visible processes"));
    assert_eq!(row_note(true, 3), " (deleted) +2");
    assert_eq!(row_note(false, 1), "");
    assert_eq!(details_summary(false, 3, 5, 1, 0), "ALL USAGES · 3 of 5 usages · 1 locked files   1 / 3");
    assert_eq!(details_summary(true, 0, 5, 0, 4), "LOCKS ONLY · 0 of 5 usages · 0 locked files   0 / 0");
}

#[test]
fn summary_line_counts_what_the_table_lists() {
    assert_eq!(table_summary(false, true, false, 3, 10, 0, 0, "pid"), "3 of 10 processes · sort: pid");
    assert_eq!(table_summary(false, true, true, 4, 10, 2, 1, "RAM"), "2 locked files · 4 lock entries · 1 selected · sort: RAM");
    assert_eq!(table_summary(true, false, false, 5, 10, 0, 0, "match"), "5 bindings · THIS PATH · sort: match");
}
