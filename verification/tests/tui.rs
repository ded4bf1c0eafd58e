use oflh::model::{
    Access, Ancestor, Error, Identity, LockEvidence, Metrics, Process, Relation, Snapshot, Usage,
};
use oflh::path::Target;
use oflh::ranking::Sort;
use oflh::state::{Effect, KeyCode as K, KeyEvent, Screen};
use oflh::layout::{details_layout, dialog_layout, main_layout, margin, too_small, Tone};
use oflh::tui::{dialog_lines, footer_lines, inspected, Answer, App, Requests};
use oflh::ports::{IpAddress, Port, Protocol};

fn id(pid: u32, started: u64) -> Identity {
    Identity { pid, started, started_sub: 0 }
}

fn dotnet() -> Process {
    let mut p = Process::default();
    p.identity = id(424242, 10);
    p.name = "dotnet".into();
    p.user = "alice".into();
    p.usages = vec![
        Usage {
            path: b"/build/FileLockExampleCli.dll".to_vec(),
            relation: Relation::Locked,
            access: Access::ReadWrite,
            lock: Some(LockEvidence::Kernel("POSIX WRITE".into())),
            ..Usage::default()
        },
        Usage { path: b"/build/FileLockExampleCli.deps.json".to_vec(), ..Usage::default() },
        Usage { path: b"/build/other.dll".to_vec(), ..Usage::default() },
    ];
    p.ancestors = vec![Ancestor { identity: id(424241, 9), name: "parent".into() }];
    p
}

fn app() -> App {
    let target = Target { path: b"/tmp".to_vec(), directory: true, identity: None };
    let mut app = App::new(target, "test".into());
    app.replace(Snapshot { processes: vec![dotnet()], warnings: vec![] });
    app
}

fn key(a: &mut App, k: K) -> Effect {
    a.key(KeyEvent::new(k))
}

#[test]
fn search_and_details() {
    let mut a = app();
    key(&mut a, K::Char('/'));
    a.paste("424242 FLEC*.json");
    key(&mut a, K::Enter);
    assert_eq!(a.rows.len(), 1);
    assert_eq!(a.rows[0].usages.len(), 1);
    key(&mut a, K::Enter);
    assert_eq!(a.screen, Screen::Details);
    assert_eq!(a.detail_query, "flec*.json");
    assert_eq!(a.usage_rows.len(), 1);
    key(&mut a, K::Esc);
    assert_eq!(a.usage_rows.len(), 3);
    key(&mut a, K::Char('/'));
    a.paste("kxqr");
    assert!(!a.stopping);
    key(&mut a, K::Esc);
    assert!(a.detail_query.is_empty());
    key(&mut a, K::Esc);
    assert_eq!(a.screen, Screen::Main);
    assert_eq!(a.query, "424242 FLEC*.json");
}

#[test]
fn safe_confirmation_and_hidden_selection() {
    let mut a = app();
    key(&mut a, K::Char(' '));
    key(&mut a, K::Char('/'));
    a.paste("absent");
    key(&mut a, K::Enter);
    assert!(a.rows.is_empty());
    key(&mut a, K::Char('x'));
    assert_eq!(a.pending.len(), 1);
    assert!(!a.confirm);
    assert!(matches!(key(&mut a, K::Enter), Effect::Nothing));
    assert!(!a.stopping);
    key(&mut a, K::Char('x'));
    key(&mut a, K::Tab);
    a.width = 10;
    assert!(matches!(key(&mut a, K::Enter), Effect::Nothing));
    a.width = 80;
    assert!(matches!(key(&mut a,K::Enter),Effect::Kill(ids,true) if ids.len()==1));
}

#[test]
fn ancestry_captures_identity() {
    let mut a = app();
    key(&mut a, K::Tab);
    key(&mut a, K::Up);
    let mut snapshot = a.snapshot.clone();
    snapshot.processes[0].ancestors[0].identity.started = 99;
    a.replace(snapshot);
    key(&mut a, K::Char('k'));
    assert_eq!(a.pending[0].identity.started, 9);
    assert!(a.parent_action);
}

#[test]
fn refresh_rejects_reused_detail() {
    let mut a = app();
    key(&mut a, K::Enter);
    let mut snap = a.snapshot.clone();
    snap.processes[0].identity.started = 99;
    a.replace(snap);
    assert!(a.detail().is_none());
    assert!(a.usage_rows.is_empty());
}

#[test]
fn quitting_links_and_scans() {
    let mut a = app();
    assert!(matches!(a.key(KeyEvent { code: K::Char('c'), control: true, alt: false }), Effect::Quit));
    assert!(matches!(key(&mut a, K::Char('R')), Effect::Link(u) if u == "https://github.com/karimz1/open-file-lock-handle"));
    assert!(matches!(key(&mut a, K::Char('D')), Effect::Link(u) if u == "https://buymeacoffee.com/karimz1"));
    assert!(matches!(key(&mut a, K::Char('r')), Effect::Scan));
    key(&mut a, K::Char('?'));
    assert_eq!(a.screen, Screen::Help);
    key(&mut a, K::Down);
    assert_eq!(a.scroll, 1);
    key(&mut a, K::Esc);
    assert_eq!((a.screen, a.scroll), (Screen::Main, 0));
    assert!(matches!(key(&mut a, K::Char('q')), Effect::Quit));
}

#[test]
fn locked_scope_lists_locked_usages_only() {
    let mut a = app();
    key(&mut a, K::Char('2'));
    assert!(a.locked);
    assert_eq!(a.rows.len(), 1);
    assert_eq!(a.rows[0].usages, vec![0]);
    key(&mut a, K::Enter);
    assert_eq!(a.screen, Screen::Details);
    assert_eq!(a.usage_rows, vec![0]);
    key(&mut a, K::Char('q'));
    key(&mut a, K::Char('1'));
    assert_eq!(a.rows[0].usages, vec![0, 1, 2]);
}

#[test]
fn sorting_selection_and_metrics() {
    let mut a = app();
    let mut second = Process::default();
    second.identity = id(7, 1);
    second.name = "Alpha".into();
    second.usages = vec![Usage { path: b"/build/a".to_vec(), ..Usage::default() }];
    a.replace(Snapshot { processes: vec![dotnet(), second], warnings: vec![] });
    key(&mut a, K::Char('n'));
    assert_eq!(a.sort, Sort::Name);
    assert_eq!(a.rows[0].process, 1);
    key(&mut a, K::Char('p'));
    assert_eq!(a.rows[0].process, 1);
    key(&mut a, K::Char('m'));
    a.metrics(vec![(id(424242, 10), Metrics { cpu: None, memory: Some(10) })]);
    assert_eq!(a.rows[0].process, 0);
    assert_eq!(a.snapshot.processes[0].memory, Some(10));
    a.select_all();
    assert_eq!(a.selected.len(), 2);
    a.select_all();
    assert!(a.selected.is_empty());
    key(&mut a, K::Char(' '));
    assert_eq!(a.selected, vec![a.snapshot.processes[a.rows[a.cursor].process].identity]);
    key(&mut a, K::Esc);
    assert!(a.selected.is_empty());
}

#[test]
fn editing_keys_move_by_character() {
    let mut a = app();
    key(&mut a, K::Char('/'));
    a.paste("Über\tdll");
    assert_eq!(a.query, "Überdll");
    key(&mut a, K::Home);
    key(&mut a, K::Delete);
    key(&mut a, K::End);
    key(&mut a, K::Backspace);
    assert_eq!(a.query, "berdl");
    key(&mut a, K::Left);
    key(&mut a, K::Char('x'));
    assert_eq!(a.query, "berdxl");
    a.key(KeyEvent { code: K::Char('u'), control: true, alt: false });
    assert!(a.query.is_empty());
    key(&mut a, K::Enter);
    assert!(!a.editing);
}

#[test]
fn scans_samples_and_terminations_are_reported() {
    let mut a = app();
    a.set_scanning(true);
    a.scan_finished(Err(Error::Cancelled));
    assert!(!a.scanning && !a.error);
    a.scan_finished(Err(Error::Unavailable("no procfs".into())));
    assert_eq!(a.status, "Scan failed: no procfs");
    assert!(a.error);
    key(&mut a, K::Char(' '));
    a.killed(2, vec!["one".into(), "two".into()]);
    assert_eq!(a.status, "2 termination requests sent · one; two");
    assert!(a.error && a.selected.is_empty());
    a.killed(0, vec![]);
    assert_eq!(a.status, "0 termination requests sent");
    assert!(!a.error);
    assert!(a.may_refresh(false) && !a.may_refresh(true) && a.may_sample());
    a.pulse = 3;
    a.pulse_tick();
    assert_eq!(a.pulse, 0);
    assert_eq!(a.identities(), vec![id(424242, 10)]);
    assert!(matches!(a.press(KeyEvent { code: K::Char('a'), control: true, alt: false }), Effect::Nothing));
    assert_eq!(a.selected.len(), 1);
}

#[test]
fn rendering_all_sizes_and_screens() {
    let mut a = app();
    for (w, h) in [(1u16, 1u16), (28, 18), (48, 20), (80, 24), (120, 40), (160, 50)] {
        for screen in [Screen::Main, Screen::Details, Screen::Help, Screen::Confirm] {
            a.screen = Screen::Main;
            key(&mut a, K::Enter);
            a.screen = screen;
            a.set_frame(w, h);
            let (left, width) = margin(w);
            assert!(left * 2 + width <= w);
            if width == 0 || too_small(width, h) {
                continue;
            }
            let lines = footer_lines(width, &a).len();
            let main = main_layout(width, h, lines, a.tree.is_some(), a.hide_inspector);
            assert!(main.panel + main.table <= width);
            assert!(7 + main.body + main.footer <= h);
            let details = details_layout(width, h, lines);
            assert!(details.head + 8 + details.body + details.footer <= h + 9);
            let dialog = dialog_layout(h, lines);
            assert!(dialog.body + dialog.footer <= h);
            assert!(!dialog_lines(&a).is_empty());
        }
    }
}

#[test]
fn terminal_text_is_sanitized() {
    let mut a = app();
    a.snapshot.processes[0].name = "bad\x1b]52;payload\x07".into();
    a.replace(oflh::model::Snapshot { processes: vec![a.snapshot.processes[0].clone()], warnings: vec!["w\x1b".into()] });
    key(&mut a, K::Char('k'));
    assert_eq!(a.screen, Screen::Confirm);
    let mut text = String::new();
    for line in dialog_lines(&a).iter().chain(footer_lines(160, &a).iter()) {
        text.push_str(&line.text);
    }
    key(&mut a, K::Esc);
    key(&mut a, K::Char('?'));
    for line in dialog_lines(&a) {
        text.push_str(&line.text);
    }
    assert!(text.contains("bad"));
    assert!(!text.contains('\x1b'));
    assert!(!text.contains('\x07'));
}

#[test]
fn focused_tree_survives_empty_refresh() {
    let mut a = app();
    key(&mut a, K::Tab);
    key(&mut a, K::Up);
    a.replace(Snapshot::default());
    let tree = a.tree.as_ref().unwrap();
    assert!(tree.nodes.iter().any(|n| n.name == "parent" && n.identity.pid == 424241));
    key(&mut a, K::Char('k'));
    assert_eq!(a.pending[0].identity.pid, 424241);
}

#[test]
fn confirmation_focus_has_distinct_backgrounds() {
    let mut a = app();
    key(&mut a, K::Char('k'));
    assert!(!a.confirm);
    let buttons = |a: &App| footer_lines(80, a).iter().filter(|l| l.tone == Tone::Buttons).count();
    assert_eq!(buttons(&a), 1);
    let text = |a: &App| footer_lines(80, a).into_iter().find(|l| l.tone == Tone::Buttons).unwrap().text;
    assert_eq!(text(&a), "▶ Cancel      Terminate ");
    key(&mut a, K::Tab);
    assert!(a.confirm);
    assert_eq!(buttons(&a), 1);
    assert_eq!(text(&a), "  Cancel    ▶ Terminate ");
}

#[test]
fn help_links_precede_warnings_and_open_with_shortcuts() {
    let mut a = app();
    a.replace(Snapshot { processes: vec![dotnet()], warnings: vec!["Permission restricted".into(); 30] });
    key(&mut a, K::Char('?'));
    let lines = dialog_lines(&a);
    let at = |needle: &str| lines.iter().position(|l| l.text.contains(needle)).unwrap();
    let github = at("https://github.com/karimz1/open-file-lock-handle");
    let donate = at("https://buymeacoffee.com/karimz1");
    let warning = at("Permission restricted");
    assert!(github < warning && donate < warning);
    assert!(matches!(key(&mut a, K::Char('R')), Effect::Link("https://github.com/karimz1/open-file-lock-handle")));
    assert!(matches!(key(&mut a, K::Char('D')), Effect::Link("https://buymeacoffee.com/karimz1")));
}

#[test]
fn leaving_the_review_forgets_targets() {
    for leave in [K::Esc, K::Char('q'), K::Char('n')] {
        let mut a = app();
        key(&mut a, K::Char('k'));
        assert_eq!((a.screen, a.pending.len(), a.confirm, a.scroll), (Screen::Confirm, 1, false, 0));
        assert!(matches!(key(&mut a, leave), Effect::Nothing));
        assert_eq!(a.screen, Screen::Main);
        assert!(a.pending.is_empty());
    }
}

#[test]
fn scans_keep_only_live_selections() {
    let mut a = app();
    key(&mut a, K::Char(' '));
    assert_eq!(a.selected.len(), 1);
    a.replace(Snapshot { processes: vec![dotnet()], warnings: vec![] });
    assert_eq!(a.selected, vec![id(424242, 10)]);
    let mut reborn = dotnet();
    reborn.identity = id(424242, 11);
    a.replace(Snapshot { processes: vec![reborn], warnings: vec![] });
    assert!(a.selected.is_empty());
}

#[test]
fn answers_of_older_requests_are_ignored() {
    let mut a = app();
    let mut requests = Requests::new();
    assert_eq!(a.request(&mut requests, &Effect::Scan), Some(1));
    assert!(a.scanning);
    assert_eq!(a.request(&mut requests, &Effect::Scan), Some(2));
    let stale = a.answer(&mut requests, 1, Answer::Scan(Ok(Snapshot { processes: vec![], warnings: vec![] })));
    assert!(matches!(stale, Effect::Nothing));
    assert_eq!(a.snapshot.processes.len(), 1);
    assert!(a.scanning);
    a.answer(&mut requests, 2, Answer::Scan(Ok(Snapshot { processes: vec![], warnings: vec![] })));
    assert!(a.snapshot.processes.is_empty());
    assert!(!a.scanning);
    assert!(requests.sample_due);
    assert_eq!(a.start_sampling(&mut requests), Some(2));
    assert!(requests.sampling && !requests.sample_due);
    a.answer(&mut requests, 1, Answer::Metrics(Ok(vec![])));
    assert!(requests.sampling);
    a.answer(&mut requests, 2, Answer::Metrics(Err(Error::Cancelled)));
    assert!(!requests.sampling);
    assert!(matches!(a.answer(&mut requests, 0, Answer::Killed(1, vec![])), Effect::Scan));
    assert_eq!(a.status, "1 termination requests sent");
    assert_eq!(a.request(&mut requests, &Effect::Quit), None);
    assert_eq!(requests.generation, 2);
    assert_eq!(a.request(&mut requests, &Effect::Kill(vec![id(1, 1)], false)), Some(3));
    assert!(!a.scanning);
}

fn ports_app() -> App {
    let mut application = app();
    application.target.path = b"/build".to_vec();
    let mut snapshot = application.snapshot.clone();
    snapshot.processes[0].executable = b"/usr/bin/dotnet".to_vec();
    snapshot.processes[0].cwd = b"/build".to_vec();
    snapshot.processes[0].ports = vec![
        Port { protocol: Protocol::Tcp, address: IpAddress::V4(0x7f00_0001), number: 3000 },
        Port { protocol: Protocol::Tcp, address: IpAddress::V6(1), number: 3000 },
        Port { protocol: Protocol::Udp, address: IpAddress::V4(0x7f00_0001), number: 5300 },
    ];
    let mut unrelated = snapshot.processes[0].clone();
    unrelated.identity.pid += 1;
    unrelated.name = "other-project".into();
    unrelated.usages.clear();
    unrelated.ports.truncate(1);
    snapshot.processes.push(unrelated);
    let mut owner = Process::default();
    owner.name = "owner unavailable".into();
    owner.ports = vec![Port { protocol: Protocol::Tcp, address: IpAddress::V4(0), number: 9000 }];
    snapshot.processes.push(owner);
    application.replace(snapshot);
    application
}

#[test]
fn ports_scope_search_details_and_unknown_owner_actions() {
    let mut application = ports_app();
    assert!(matches!(key(&mut application, K::Char('3')), Effect::Scan));
    assert_eq!(application.rows.len(), 5);
    key(&mut application, K::Char('s'));
    assert_eq!(application.rows.len(), 3);
    key(&mut application, K::Char('/'));
    application.paste("3000 tcp");
    key(&mut application, K::Enter);
    assert_eq!(application.rows.len(), 2);
    key(&mut application, K::Char('K'));
    assert_eq!(application.pending.len(), 1, "multiple bindings deduplicate action targets");
    assert!(!application.confirm);
    key(&mut application, K::Esc);
    key(&mut application, K::Enter);
    assert!(application.tab.detail);
    assert_eq!(application.usage_rows.len(), 2);
    key(&mut application, K::Char('f'));
    assert!(!application.tab.detail);
    assert_eq!(application.usage_rows.len(), 3);
    key(&mut application, K::Esc);
    key(&mut application, K::Char('1'));
    assert_eq!(application.rows.len(), 1);
    assert!(application.query.is_empty(), "port terms do not pollute file search");
    key(&mut application, K::Char('3'));
    assert_eq!(application.tab.query, "3000 tcp");
    key(&mut application, K::Esc);
    key(&mut application, K::Char('s'));
    key(&mut application, K::End);
    key(&mut application, K::Char('k'));
    assert!(application.pending.is_empty());
    assert_eq!(application.screen, Screen::Main);
    assert!(application.error);
}

#[test]
fn port_selection_keeps_endpoint_and_birth_identity_across_refresh() {
    let mut application = ports_app();
    key(&mut application, K::Char('3'));
    key(&mut application, K::Char('s'));
    key(&mut application, K::Down);
    let mut snapshot = application.snapshot.clone();
    snapshot.processes[0].ports.reverse();
    application.replace(snapshot);
    let row = &application.rows[application.cursor];
    assert!(!application.snapshot.processes[row.process].ports[row.port.unwrap()].address.is_ipv4());
    key(&mut application, K::Enter);
    let mut snapshot = application.snapshot.clone();
    snapshot.processes[0].identity.started += 1;
    application.replace(snapshot);
    assert!(application.detail().is_none());
    key(&mut application, K::Char('x'));
    assert!(application.pending.is_empty());
}

#[test]
fn side_panel_follows_the_current_process_or_the_focused_ancestry() {
    let mut a = app();
    let (position, tree) = inspected(&a).unwrap();
    assert_eq!(position, Some(0));
    assert_eq!(tree.nodes.iter().map(|n| n.identity.pid).collect::<Vec<_>>(), [424241, 424242]);
    assert_eq!(tree.cursor, 1);
    key(&mut a, K::Tab);
    key(&mut a, K::Up);
    a.replace(Snapshot::default());
    let (position, tree) = inspected(&a).unwrap();
    assert_eq!(position, None);
    assert_eq!(tree.cursor, 0);
    assert_eq!(tree.nodes.last().unwrap().name, "dotnet");
    a.key(KeyEvent::new(K::Esc));
    assert!(inspected(&a).is_none());
}

#[test]
fn this_path_scope_sees_bindings_joined_to_file_records() {
    let mut a = app();
    let mut ports = Process::default();
    ports.identity = id(424242, 10);
    ports.name = "dotnet".into();
    ports.ports = vec![Port { protocol: Protocol::Tcp, address: IpAddress::V4(0x7f00_0001), number: 3000 }];
    let mut snapshot = Snapshot { processes: vec![dotnet(), ports], warnings: vec![] };
    snapshot.normalize();
    a.replace(snapshot);
    key(&mut a, K::Char('3'));
    key(&mut a, K::Char('s'));
    assert!(!a.tab.all);
    assert_eq!(a.rows.len(), 1);
}
