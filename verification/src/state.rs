//! The terminal interface's state, and how keys, pasted text, scans and samples change it,
//! stated as functions from state to state.
use vstd::prelude::*;
use crate::model::{actionable, Identity, Metrics, ProcessView, UsageView};
use crate::ranking::{
    detail_rows, file_query, query_terms, row_order_fn, stable_sort, table_rows, RowView, Sort,
};
use crate::search::{join_words, TermView};
use crate::text::char_control;

verus! {

/// The screen in front.
#[derive(Clone, Copy, Debug, PartialEq, Eq, Structural)]
pub enum Screen {
    /// The process table.
    Main,
    /// The usages of one process.
    Details,
    /// Key help.
    Help,
    /// Termination review.
    Confirm,
}

/// A key, as the terminal reports it.
#[derive(Clone, Copy, Debug, PartialEq, Eq, Structural)]
pub enum KeyCode {
    Char(char),
    Enter,
    Esc,
    Backspace,
    Delete,
    Left,
    Right,
    Up,
    Down,
    Home,
    End,
    PageUp,
    PageDown,
    Tab,
    BackTab,
    /// Any other key.
    Other,
}

/// A key press with the modifiers that matter here.
#[derive(Clone, Copy, Debug, PartialEq, Eq, Structural)]
pub struct KeyEvent {
    pub code: KeyCode,
    /// Control was held.
    pub control: bool,
    /// Alt was held.
    pub alt: bool,
}

impl KeyEvent {
    /// A key press without modifiers.
    pub fn new(code: KeyCode) -> (r: Self)
        ensures
            r == (KeyEvent { code, control: false, alt: false }),
    {
        KeyEvent { code, control: false, alt: false }
    }
}

/// A process to act on, with the identity observed when it was chosen.
#[derive(Debug)]
pub struct ActionTarget {
    pub identity: Identity,
    pub name: String,
}

/// The abstract content of an action target.
pub struct TargetView {
    pub identity: Identity,
    pub name: Seq<char>,
}

impl View for ActionTarget {
    type V = TargetView;

    open spec fn view(&self) -> TargetView {
        TargetView { identity: self.identity, name: self.name@ }
    }
}

impl Clone for ActionTarget {
    fn clone(&self) -> (r: Self)
        ensures
            r@ == self@,
    {
        ActionTarget { identity: self.identity, name: self.name.clone() }
    }
}

/// The ancestry of a process, root first and the process last, with a cursor.
#[derive(Debug)]
pub struct Tree {
    pub nodes: Vec<ActionTarget>,
    pub cursor: usize,
}

/// The abstract content of an ancestry.
pub struct TreeView {
    pub nodes: Seq<TargetView>,
    pub cursor: usize,
}

impl View for Tree {
    type V = TreeView;

    open spec fn view(&self) -> TreeView {
        TreeView { nodes: self.nodes@.map_values(|t: ActionTarget| t@), cursor: self.cursor }
    }
}

/// What the run loop does after a key.
#[derive(Debug)]
pub enum Effect {
    /// Nothing to do.
    Nothing,
    Quit,
    /// Start a new scan.
    Scan,
    /// Request termination of these birth identities; forcefully when the flag is set.
    Kill(Vec<Identity>, bool),
    /// Open this address in a browser.
    Link(&'static str),
}

/// The abstract content of an effect.
pub enum EffectView {
    Nothing,
    Quit,
    Scan,
    Kill(Seq<Identity>, bool),
    Link(Seq<char>),
}

impl View for Effect {
    type V = EffectView;

    open spec fn view(&self) -> EffectView {
        match self {
            Effect::Nothing => EffectView::Nothing,
            Effect::Quit => EffectView::Quit,
            Effect::Scan => EffectView::Scan,
            Effect::Kill(ids, force) => EffectView::Kill(ids@, *force),
            Effect::Link(url) => EffectView::Link(url@),
        }
    }
}

/// The abstract state of the Ports tab.
pub struct PortTabView {
    /// The Ports tab is in front.
    pub on: bool,
    /// It lists every binding, not only those of processes that use the target.
    pub all: bool,
    /// Its query, kept apart from the file query.
    pub query: Seq<char>,
    /// Sockets were asked for, so scans include them.
    pub seen: bool,
    /// The details list the process's bindings instead of its usages.
    pub detail: bool,
}

/// The state of the Ports tab.
pub struct PortTab {
    pub on: bool,
    pub all: bool,
    pub query: String,
    pub seen: bool,
    pub detail: bool,
}

impl View for PortTab {
    type V = PortTabView;

    open spec fn view(&self) -> PortTabView {
        PortTabView { on: self.on, all: self.all, query: self.query@, seen: self.seen, detail: self.detail }
    }
}

/// The abstract state of the interface.
pub struct AppView {
    pub target_path: Seq<u8>,
    pub target_directory: bool,
    pub target_identity: Option<(u64, u64)>,
    pub version: Seq<char>,
    pub processes: Seq<ProcessView>,
    pub warnings: Seq<Seq<char>>,
    pub rows: Seq<RowView>,
    pub cursor: usize,
    pub screen: Screen,
    pub locked: bool,
    /// The Ports tab.
    pub tab: PortTabView,
    pub sort: Sort,
    pub selected: Set<Identity>,
    pub query: Seq<char>,
    pub detail_query: Seq<char>,
    pub editing: bool,
    pub edit_before: Seq<char>,
    /// Position of the text cursor, in characters.
    pub input_cursor: usize,
    pub detail_id: Option<Identity>,
    pub detail_scope: Option<UsageView>,
    pub detail_locks: bool,
    pub usage_rows: Seq<usize>,
    pub usage_cursor: usize,
    pub path_page: usize,
    pub tree: Option<TreeView>,
    pub hide_inspector: bool,
    pub auto: bool,
    pub scanning: bool,
    pub stopping: bool,
    pub pulse: usize,
    pub pending: Seq<TargetView>,
    pub force: bool,
    pub confirm: bool,
    pub parent_action: bool,
    pub scroll: usize,
    pub status: Seq<char>,
    pub error: bool,
    pub width: u16,
    pub height: u16,
    pub page: usize,
}

/// The project's source address.
pub open spec fn repository_url() -> Seq<char> {
    "https://github.com/karimz1/open-file-lock-handle"@
}

/// The project's donation address.
pub open spec fn donation_url() -> Seq<char> {
    "https://buymeacoffee.com/karimz1"@
}

/// `a - b`, or zero.
pub open spec fn sat_sub(a: usize, b: usize) -> usize {
    if a >= b { (a - b) as usize } else { 0 }
}

/// `a + b`, or `usize::MAX`.
pub open spec fn sat_add(a: usize, b: usize) -> usize {
    if a + b > usize::MAX { usize::MAX } else { (a + b) as usize }
}

/// A cursor kept inside a list of `len` entries (zero for an empty list).
pub open spec fn clamp(c: usize, len: nat) -> usize {
    if len == 0 {
        0
    } else if c >= len - 1 {
        (len - 1) as usize
    } else {
        c
    }
}

/// The position of the first element that satisfies `pred`.
pub open spec fn first_where<T>(s: Seq<T>, pred: spec_fn(T) -> bool) -> Option<int>
    decreases s.len(),
{
    if s.len() == 0 {
        None
    } else {
        match first_where(s.drop_last(), pred) {
            Some(k) => Some(k),
            None => if pred(s.last()) {
                Some(s.len() - 1)
            } else {
                None
            },
        }
    }
}

/// The first position of the element `i` when none before it satisfies `pred` and it does;
/// none when no element does.
pub proof fn lemma_first_where<T>(s: Seq<T>, pred: spec_fn(T) -> bool, i: int)
    requires
        0 <= i <= s.len(),
        forall|k: int| 0 <= k < i ==> !pred(#[trigger] s[k]),
    ensures
        i < s.len() && pred(s[i]) ==> first_where(s, pred) == Some(i),
        i == s.len() ==> first_where(s, pred) is None,
    decreases s.len(),
{
    if s.len() > 0 {
        if i < s.len() {
            if i < s.len() - 1 {
                lemma_first_where(s.drop_last(), pred, i);
            } else {
                lemma_first_where(s.drop_last(), pred, i);
            }
        } else {
            lemma_first_where(s.drop_last(), pred, i - 1);
        }
    }
}

/// A first position found is in range and satisfies the predicate, and none before it does.
pub proof fn lemma_first_where_found<T>(s: Seq<T>, pred: spec_fn(T) -> bool)
    ensures
        first_where(s, pred) matches Some(k) ==> 0 <= k < s.len() && pred(s[k]) && forall|j: int| 0 <= j < k ==> !pred(#[trigger] s[j]),
    decreases s.len(),
{
    if s.len() > 0 {
        let d = s.drop_last();
        lemma_first_where_found(d, pred);
        if first_where(d, pred) is None {
            lemma_first_where_none(d, pred);
        }
        if let Some(k) = first_where(s, pred) {
            assert forall|j: int| 0 <= j < k implies !pred(#[trigger] s[j]) by {
                assert(d[j] == s[j]);
            }
            if k < d.len() {
                assert(d[k] == s[k]);
            }
        }
    }
}

/// When no position is found, no element satisfies the predicate.
pub proof fn lemma_first_where_none<T>(s: Seq<T>, pred: spec_fn(T) -> bool)
    ensures
        first_where(s, pred) is None ==> forall|j: int| 0 <= j < s.len() ==> !pred(#[trigger] s[j]),
    decreases s.len(),
{
    if s.len() > 0 {
        lemma_first_where_none(s.drop_last(), pred);
        if first_where(s, pred) is None {
            assert forall|j: int| 0 <= j < s.len() implies !pred(#[trigger] s[j]) by {
                if j < s.len() - 1 {
                    assert(s.drop_last()[j] == s[j]);
                }
            }
        }
    }
}

/// The position of the first process with this birth identity.
pub open spec fn position_of(ps: Seq<ProcessView>, id: Identity) -> Option<int> {
    first_where(ps, |p: ProcessView| p.identity == id)
}

/// The process the table cursor is on.
pub open spec fn current_of(s: AppView) -> Option<ProcessView> {
    if s.cursor < s.rows.len() && (s.rows[s.cursor as int].process as int) < s.processes.len() {
        Some(s.processes[s.rows[s.cursor as int].process as int])
    } else {
        None
    }
}

/// The process whose details are open, found again by birth identity.
pub open spec fn detail_of(s: AppView) -> Option<ProcessView> {
    match s.detail_id {
        Some(id) => match position_of(s.processes, id) {
            Some(i) => Some(s.processes[i]),
            None => None,
        },
        None => None,
    }
}

/// The action target for a process.
pub open spec fn target_of(p: ProcessView) -> TargetView {
    TargetView { identity: p.identity, name: p.name }
}

/// Recompute the table for the query and keep the cursor inside it.
#[verifier::opaque]
pub open spec fn refilter_spec(s: AppView) -> AppView {
    let rows = if s.tab.on {
        crate::ranking::port_table_rows(s.processes, s.tab.query, s.tab.all)
    } else {
        table_rows(s.processes, s.query, s.locked, s.sort)
    };
    AppView { rows, cursor: clamp(s.cursor, rows.len()), ..s }
}

/// Recompute the usages listed in the details; without a detail process they are cleared.
#[verifier::opaque]
pub open spec fn filter_details_spec(s: AppView) -> AppView {
    match detail_of(s) {
        Some(p) => {
            let rows = if s.tab.detail {
                crate::ranking::detail_port_rows(p, s.tab.query, s.detail_query)
            } else {
                detail_rows(p, s.detail_query, s.detail_locks, s.detail_scope)
            };
            AppView { usage_rows: rows, usage_cursor: clamp(s.usage_cursor, rows.len()), path_page: 0, ..s }
        },
        None => AppView { usage_rows: Seq::empty(), ..s },
    }
}

/// The query of the tab in front: the port query on the Ports tab, else the file query.
pub open spec fn table_query(s: AppView) -> Seq<char> {
    if s.tab.on { s.tab.query } else { s.query }
}

/// The text being edited: the detail query on the details screen, else the query of the
/// tab in front.
pub open spec fn input_of(s: AppView) -> Seq<char> {
    if s.screen == Screen::Details {
        s.detail_query
    } else {
        table_query(s)
    }
}

/// The state with the edited text replaced.
pub open spec fn with_input(s: AppView, t: Seq<char>) -> AppView {
    if s.screen == Screen::Details {
        AppView { detail_query: t, ..s }
    } else if s.tab.on {
        AppView { tab: PortTabView { query: t, ..s.tab }, ..s }
    } else {
        AppView { query: t, ..s }
    }
}

/// After the edited text changed: back to the first entry of the affected list, recomputed.
#[verifier::opaque]
pub open spec fn changed_spec(s: AppView) -> AppView {
    if s.screen == Screen::Details {
        filter_details_spec(AppView { usage_cursor: 0, ..s })
    } else {
        refilter_spec(AppView { cursor: 0, ..s })
    }
}

/// Most characters a query may hold.
pub open spec fn input_limit() -> nat {
    256
}

/// Insert a character at the text cursor, unless the text is full.
#[verifier::opaque]
pub open spec fn insert_spec(s: AppView, c: char) -> AppView {
    let t = input_of(s);
    if t.len() >= input_limit() {
        s
    } else {
        changed_spec(AppView { input_cursor: (s.input_cursor + 1) as usize, ..with_input(s, t.insert(s.input_cursor as int, c)) })
    }
}

/// Insert each non-control character of pasted text, while editing.
#[verifier::opaque]
pub open spec fn paste_spec(s: AppView, text: Seq<char>) -> AppView
    decreases text.len(),
{
    if !s.editing || text.len() == 0 {
        s
    } else {
        let before = paste_spec(s, text.drop_last());
        if char_control(text.last()) {
            before
        } else {
            insert_spec(before, text.last())
        }
    }
}

/// Start editing the current text, remembering it for cancellation.
#[verifier::opaque]
pub open spec fn begin_search_spec(s: AppView) -> AppView {
    AppView { editing: true, edit_before: input_of(s), input_cursor: input_of(s).len() as usize, ..s }
}

/// Where a navigation key moves the cursor of the list in front.
#[verifier::opaque]
pub open spec fn nav_target(s: AppView, code: KeyCode) -> usize {
    let details = s.screen == Screen::Details;
    let len = if details { s.usage_rows.len() } else { s.rows.len() };
    let cur = if details { s.usage_cursor } else { s.cursor };
    let moved: usize = match code {
        KeyCode::Up => sat_sub(cur, 1),
        KeyCode::Down | KeyCode::Char('j') => sat_add(cur, 1),
        KeyCode::PageUp => sat_sub(cur, s.page),
        KeyCode::PageDown => sat_add(cur, s.page),
        KeyCode::Home | KeyCode::Char('g') => 0,
        KeyCode::End | KeyCode::Char('G') => sat_sub(len as usize, 1),
        _ => cur,
    };
    clamp(moved, len)
}

/// Move the cursor of the list in front.
#[verifier::opaque]
pub open spec fn navigate_spec(s: AppView, code: KeyCode) -> AppView {
    if s.screen == Screen::Details {
        AppView { usage_cursor: nav_target(s, code), path_page: 0, ..s }
    } else {
        AppView { cursor: nav_target(s, code), path_page: 0, ..s }
    }
}

/// Stop editing and restore the text from before.
#[verifier::opaque]
pub open spec fn cancel_edit_spec(s: AppView) -> AppView {
    changed_spec(AppView { editing: false, ..with_input(s, s.edit_before) })
}

/// Delete the character before the text cursor.
#[verifier::opaque]
pub open spec fn backspace_spec(s: AppView) -> AppView {
    let c = s.input_cursor;
    if c > 0 {
        changed_spec(AppView { input_cursor: (c - 1) as usize, ..with_input(s, input_of(s).remove(c - 1)) })
    } else {
        s
    }
}

/// Delete the character at the text cursor.
#[verifier::opaque]
pub open spec fn delete_spec(s: AppView) -> AppView {
    let c = s.input_cursor;
    if c < input_of(s).len() {
        changed_spec(with_input(s, input_of(s).remove(c as int)))
    } else {
        s
    }
}

/// Move the text cursor one character right, unless at the end.
#[verifier::opaque]
pub open spec fn cursor_right_spec(s: AppView) -> AppView {
    if s.input_cursor < input_of(s).len() {
        AppView { input_cursor: (s.input_cursor + 1) as usize, ..s }
    } else {
        s
    }
}

/// Clear the text being edited.
#[verifier::opaque]
pub open spec fn clear_input_spec(s: AppView) -> AppView {
    changed_spec(AppView { input_cursor: 0, ..with_input(s, Seq::empty()) })
}

/// A key while editing text.
#[verifier::opaque]
pub open spec fn edit_spec(s: AppView, key: KeyEvent) -> AppView {
    match key.code {
        KeyCode::Enter => AppView { editing: false, ..s },
        KeyCode::Esc => cancel_edit_spec(s),
        KeyCode::Backspace => backspace_spec(s),
        KeyCode::Delete => delete_spec(s),
        KeyCode::Left => AppView { input_cursor: sat_sub(s.input_cursor, 1), ..s },
        KeyCode::Right => cursor_right_spec(s),
        KeyCode::Home => AppView { input_cursor: 0, ..s },
        KeyCode::End => AppView { input_cursor: input_of(s).len() as usize, ..s },
        KeyCode::Up | KeyCode::Down => navigate_spec(s, key.code),
        KeyCode::Char(ch) => if ch == 'u' && key.control {
            clear_input_spec(s)
        } else if !key.control && !key.alt {
            insert_spec(s, ch)
        } else {
            s
        },
        _ => s,
    }
}

/// A key on the help screen.
#[verifier::opaque]
pub open spec fn help_spec(s: AppView, code: KeyCode) -> (AppView, EffectView) {
    match code {
        KeyCode::Esc | KeyCode::Char('q') | KeyCode::Char('?') => (AppView { screen: Screen::Main, scroll: 0, ..s }, EffectView::Nothing),
        KeyCode::Up | KeyCode::Down | KeyCode::Char('j') | KeyCode::PageUp | KeyCode::PageDown => (
            AppView { scroll: scrolled(s, code), ..s },
            EffectView::Nothing,
        ),
        KeyCode::Char('R') => (s, EffectView::Link(repository_url())),
        KeyCode::Char('D') => (s, EffectView::Link(donation_url())),
        _ => (s, EffectView::Nothing),
    }
}

/// The processes whose identity is selected, in snapshot order, as action targets.
#[verifier::opaque]
pub open spec fn selected_targets(ps: Seq<ProcessView>, sel: Set<Identity>) -> Seq<TargetView> {
    ps.filter(|p: ProcessView| sel.contains(p.identity)).map_values(|p: ProcessView| target_of(p))
}

/// The identities of action targets.
pub open spec fn target_ids(ts: Seq<TargetView>) -> Seq<Identity> {
    ts.map_values(|t: TargetView| t.identity)
}

/// The processes of the rows, in row order, each birth identity once.
#[verifier::opaque]
pub open spec fn row_targets(ps: Seq<ProcessView>, rows: Seq<RowView>) -> Seq<TargetView>
    decreases rows.len(),
{
    if rows.len() == 0 {
        Seq::empty()
    } else {
        let prev = row_targets(ps, rows.drop_last());
        let p = ps[rows.last().process as int];
        if target_ids(prev).contains(p.identity) {
            prev
        } else {
            prev.push(target_of(p))
        }
    }
}

/// The review before targets are collected: nothing pending, not yet confirmed, at the top,
/// with force for `x`/`X`.
#[verifier::opaque]
pub open spec fn kill_base(s: AppView, code: KeyCode) -> AppView {
    AppView {
        pending: Seq::empty(),
        confirm: false,
        scroll: 0,
        force: code == KeyCode::Char('x') || code == KeyCode::Char('X'),
        parent_action: false,
        ..s
    }
}

/// The focused ancestor as the target, unless it is protected or its identity unknown.
#[verifier::opaque]
pub open spec fn pick_ancestor_spec(s: AppView, t: TreeView) -> AppView {
    let target = t.nodes[t.cursor as int];
    if !actionable(target.identity) {
        AppView { status: "This ancestor cannot be terminated: protected or identity unavailable."@, error: true, ..s }
    } else {
        AppView { parent_action: t.cursor + 1 < t.nodes.len(), pending: seq![target], ..s }
    }
}

/// The target of a process, if there is one.
#[verifier::opaque]
pub open spec fn pick_process_spec(s: AppView, p: Option<ProcessView>) -> AppView {
    match p {
        Some(p) => if actionable(p.identity) {
            AppView { pending: seq![target_of(p)], ..s }
        } else {
            AppView { status: "This process cannot be terminated: its owner is unknown or protected."@, error: true, ..s }
        },
        None => s,
    }
}

/// The targets `k`/`x` or `K`/`X` choose on the table without a selection: every row for
/// `K`/`X`, else the current row.
#[verifier::opaque]
pub open spec fn rows_choice(s: AppView, code: KeyCode) -> AppView {
    if code == KeyCode::Char('K') || code == KeyCode::Char('X') {
        AppView { pending: row_targets(s.processes, s.rows), ..s }
    } else {
        pick_process_spec(s, current_of(s))
    }
}

/// The targets a termination key chooses on the table: the selection, if any.
#[verifier::opaque]
pub open spec fn table_choice(s: AppView, code: KeyCode) -> AppView {
    if s.selected != Set::<Identity>::empty() {
        AppView { pending: selected_targets(s.processes, s.selected), ..s }
    } else {
        rows_choice(s, code)
    }
}

/// The targets a termination key chooses without a focused ancestry: the detail process on
/// the details screen.
#[verifier::opaque]
pub open spec fn screen_choice(s: AppView, code: KeyCode) -> AppView {
    if s.screen == Screen::Details {
        pick_process_spec(s, detail_of(s))
    } else {
        table_choice(s, code)
    }
}

/// The targets a termination key chooses: the focused ancestor, the detail process, the
/// selection, every row for `K`/`X`, or the current row.
#[verifier::opaque]
pub open spec fn kill_choice(s: AppView, code: KeyCode) -> AppView {
    match s.tree {
        Some(t) => pick_ancestor_spec(s, t),
        None => screen_choice(s, code),
    }
}

/// Open the review when there is something to review.
#[verifier::opaque]
pub open spec fn open_review_spec(s: AppView) -> AppView {
    if s.pending.len() > 0 {
        AppView { screen: Screen::Confirm, ..s }
    } else {
        s
    }
}

/// Collect the termination targets for a key and open the review; `k`/`x` act on the
/// focused ancestor, the detail process, the selection, or the current row, and `K`/`X` on
/// every row; `x`/`X` ask for force. Nothing happens while a termination is under way.
#[verifier::opaque]
pub open spec fn prepare_kill_spec(s: AppView, code: KeyCode) -> AppView {
    if s.stopping {
        s
    } else {
        open_review_spec(kill_choice(kill_base(s, code), code))
    }
}

/// Where a scrolling key moves the scroll position.
pub open spec fn scrolled(s: AppView, code: KeyCode) -> usize {
    match code {
        KeyCode::Up => sat_sub(s.scroll, 1),
        KeyCode::Down | KeyCode::Char('j') => (s.scroll + 1) as usize,
        KeyCode::PageUp => sat_sub(s.scroll, s.page),
        KeyCode::PageDown => (s.scroll + s.page) as usize,
        _ => s.scroll,
    }
}

/// Confirming the review: without the confirmation focused it is cancelled; on a terminal
/// too small to show the targets it is refused; otherwise termination is requested.
#[verifier::opaque]
pub open spec fn confirm_enter_spec(s: AppView) -> (AppView, EffectView) {
    if !s.confirm {
        (AppView { pending: Seq::empty(), screen: Screen::Main, ..s }, EffectView::Nothing)
    } else if s.width < 38 || s.height < 12 {
        (
            AppView { status: "Enlarge the terminal to review targets before confirming."@, error: true, ..s },
            EffectView::Nothing,
        )
    } else {
        (
            AppView {
                screen: Screen::Main,
                stopping: true,
                status: "Requesting termination…"@,
                pending: Seq::empty(),
                ..s
            },
            EffectView::Kill(target_ids(s.pending), s.force),
        )
    }
}

/// What a key other than Enter does on the review: 0 leaves it, 1 moves the focus,
/// 2 scrolls, 3 nothing.
pub open spec fn review_action(code: KeyCode) -> u8 {
    match code {
        KeyCode::Esc | KeyCode::Char('q') | KeyCode::Char('n') => 0,
        KeyCode::Tab | KeyCode::Left | KeyCode::Right => 1,
        KeyCode::Up | KeyCode::Down | KeyCode::Char('j') | KeyCode::PageUp | KeyCode::PageDown => 2,
        _ => 3,
    }
}

/// A key on the termination review other than Enter: leave it, move the focus, or scroll.
#[verifier::opaque]
pub open spec fn review_move_spec(s: AppView, code: KeyCode) -> AppView {
    let a = review_action(code);
    if a == 0 {
        AppView { pending: Seq::empty(), screen: Screen::Main, ..s }
    } else if a == 1 {
        AppView { confirm: !s.confirm, ..s }
    } else if a == 2 {
        AppView { scroll: scrolled(s, code), ..s }
    } else {
        s
    }
}

/// A key on the termination review.
#[verifier::opaque]
pub open spec fn confirm_spec(s: AppView, code: KeyCode) -> (AppView, EffectView) {
    if code == KeyCode::Enter {
        confirm_enter_spec(s)
    } else {
        (review_move_spec(s, code), EffectView::Nothing)
    }
}

/// Switch between all usages and locked files only, back at the first row.
#[verifier::opaque]
pub open spec fn scope_spec(s: AppView, locked: bool) -> AppView {
    refilter_spec(AppView { locked, tab: PortTabView { on: false, ..s.tab }, cursor: 0, ..s })
}

/// Switch to the Ports tab, back at the first row; from now on scans include sockets.
#[verifier::opaque]
pub open spec fn ports_spec(s: AppView) -> AppView {
    refilter_spec(AppView { tab: PortTabView { on: true, seen: true, ..s.tab }, locked: false, cursor: 0, ..s })
}

/// What opening the Ports tab asks for: a scan, the first time.
pub open spec fn ports_effect(s: AppView) -> EffectView {
    if s.tab.seen { EffectView::Nothing } else { EffectView::Scan }
}

/// On the Ports tab, switch between every binding and those of processes that use the
/// target, back at the first row.
#[verifier::opaque]
pub open spec fn port_scope_spec(s: AppView) -> AppView {
    if s.tab.on {
        refilter_spec(AppView { tab: PortTabView { all: !s.tab.all, ..s.tab }, cursor: 0, ..s })
    } else {
        s
    }
}

/// A key while the ancestry of a process is focused.
#[verifier::opaque]
pub open spec fn tree_spec(s: AppView, t: TreeView, code: KeyCode) -> (AppView, EffectView) {
    match code {
        KeyCode::Esc | KeyCode::Left | KeyCode::Tab | KeyCode::BackTab | KeyCode::Char('i') => (AppView { tree: None, ..s }, EffectView::Nothing),
        KeyCode::Up => (AppView { tree: Some(TreeView { cursor: sat_sub(t.cursor, 1), ..t }), ..s }, EffectView::Nothing),
        KeyCode::Down | KeyCode::Char('j') => (
            AppView { tree: Some(TreeView { cursor: clamp(sat_add(t.cursor, 1), t.nodes.len()), ..t }), ..s },
            EffectView::Nothing,
        ),
        KeyCode::Home => (AppView { tree: Some(TreeView { cursor: 0, ..t }), ..s }, EffectView::Nothing),
        KeyCode::End => (AppView { tree: Some(TreeView { cursor: sat_sub(t.nodes.len() as usize, 1), ..t }), ..s }, EffectView::Nothing),
        KeyCode::Char('k') | KeyCode::Char('x') => if s.width < 38 || s.height < 22 {
            (AppView { status: "Enlarge the terminal to review the selected ancestor."@, error: true, ..s }, EffectView::Nothing)
        } else {
            (prepare_kill_spec(s, code), EffectView::Nothing)
        },
        KeyCode::Char('1') | KeyCode::Char('2') => (
            scope_spec(AppView { tree: None, ..s }, code == KeyCode::Char('2')),
            EffectView::Nothing,
        ),
        KeyCode::Char('3') => (ports_spec(AppView { tree: None, ..s }), ports_effect(s)),
        KeyCode::Char('q') => (s, EffectView::Quit),
        _ => (s, EffectView::Nothing),
    }
}

/// The ancestry of a process as action targets: root first (the ancestors are recorded
/// nearest first), the process last, with the cursor on the process.
#[verifier::opaque]
pub open spec fn ancestry_of(p: ProcessView) -> TreeView {
    let a = p.ancestors;
    let nodes = Seq::new(a.len(), |i: int| TargetView { identity: a[a.len() - 1 - i].identity, name: a[a.len() - 1 - i].name }).push(
        target_of(p),
    );
    TreeView { nodes, cursor: a.len() as usize }
}

/// Open the details of the current row's process, scoped to its usage when only locked
/// files are shown, with the query's terms that concern files.
#[verifier::opaque]
pub open spec fn open_details_spec(s: AppView) -> AppView {
    if s.cursor < s.rows.len() {
        let row = s.rows[s.cursor as int];
        let p = s.processes[row.process as int];
        let terms = file_query(query_terms(s.query), p);
        filter_details_spec(
            AppView {
                detail_id: Some(p.identity),
                tab: PortTabView { detail: s.tab.on, ..s.tab },
                detail_scope: if s.locked && row.usages.len() > 0 { Some(p.usages[row.usages[0] as int]) } else { None },
                detail_query: if s.tab.on { Seq::empty() } else { join_words(terms.map_values(|t: TermView| t.text)) },
                detail_locks: false,
                usage_cursor: 0,
                screen: Screen::Details,
                ..s
            },
        )
    } else {
        s
    }
}

/// A key on the details screen that the table does not handle.
#[verifier::opaque]
pub open spec fn details_key_spec(s: AppView, code: KeyCode) -> AppView {
    match code {
        KeyCode::Char('l') => filter_details_spec(AppView { detail_locks: !s.detail_locks, ..s }),
        KeyCode::Char('f') => filter_details_spec(AppView { tab: PortTabView { detail: !s.tab.detail, ..s.tab }, usage_cursor: 0, ..s }),
        KeyCode::Left => AppView { path_page: sat_sub(s.path_page, 1), ..s },
        KeyCode::Right => AppView { path_page: sat_add(s.path_page, 1), ..s },
        _ => s,
    }
}

/// The sort a key chooses.
pub open spec fn sort_for(c: char) -> Sort {
    if c == 'n' {
        Sort::Name
    } else if c == 'm' {
        Sort::Memory
    } else if c == 'c' {
        Sort::Cpu
    } else {
        Sort::Pid
    }
}

/// Escape on the details: clear the detail query, or leave the details.
#[verifier::opaque]
pub open spec fn escape_details_spec(s: AppView) -> AppView {
    if s.detail_query.len() > 0 {
        filter_details_spec(AppView { detail_query: Seq::empty(), ..s })
    } else {
        AppView { screen: Screen::Main, ..s }
    }
}

/// Escape on the table: clear the query of the tab in front, or clear the selection.
#[verifier::opaque]
pub open spec fn escape_table_spec(s: AppView) -> AppView {
    if s.tab.on && s.tab.query.len() > 0 {
        refilter_spec(AppView { tab: PortTabView { query: Seq::empty(), ..s.tab }, ..s })
    } else if !s.tab.on && s.query.len() > 0 {
        refilter_spec(AppView { query: Seq::empty(), ..s })
    } else {
        AppView { selected: Set::empty(), ..s }
    }
}

/// Escape: clear the detail query or leave the details; clear the table query; or clear the
/// selection.
#[verifier::opaque]
pub open spec fn escape_spec(s: AppView) -> AppView {
    if s.screen == Screen::Details {
        escape_details_spec(s)
    } else {
        escape_table_spec(s)
    }
}

/// Select or unselect the current row's process.
#[verifier::opaque]
pub open spec fn toggle_spec(s: AppView) -> AppView {
    match current_of(s) {
        Some(p) => if s.selected.contains(p.identity) {
            AppView { selected: s.selected.remove(p.identity), ..s }
        } else {
            AppView { selected: s.selected.insert(p.identity), ..s }
        },
        None => s,
    }
}

/// Focus the ancestry of the current row's process.
#[verifier::opaque]
pub open spec fn open_tree_spec(s: AppView) -> AppView {
    match current_of(s) {
        Some(p) => AppView { tree: Some(ancestry_of(p)), ..s },
        None => s,
    }
}

/// A key on the table or the details screen, with no ancestry focused.
#[verifier::opaque]
pub open spec fn main_spec(s: AppView, code: KeyCode) -> (AppView, EffectView) {
    let details = s.screen == Screen::Details;
    match code {
        KeyCode::Char('q') => if details {
            (AppView { screen: Screen::Main, ..s }, EffectView::Nothing)
        } else {
            (s, EffectView::Quit)
        },
        KeyCode::Char('/') => (begin_search_spec(s), EffectView::Nothing),
        KeyCode::Char('r') => (s, if s.stopping { EffectView::Nothing } else { EffectView::Scan }),
        KeyCode::Char('a') => (AppView { auto: !s.auto, ..s }, EffectView::Nothing),
        KeyCode::Char('k') | KeyCode::Char('K') | KeyCode::Char('x') | KeyCode::Char('X') => (prepare_kill_spec(s, code), EffectView::Nothing),
        KeyCode::Char('?') => (AppView { screen: Screen::Help, scroll: 0, ..s }, EffectView::Nothing),
        KeyCode::Char('R') => (s, EffectView::Link(repository_url())),
        KeyCode::Char('D') => (s, EffectView::Link(donation_url())),
        KeyCode::Esc => (escape_spec(s), EffectView::Nothing),
        KeyCode::Char('3') => if details {
            (s, EffectView::Nothing)
        } else {
            (ports_spec(s), ports_effect(s))
        },
        KeyCode::Up | KeyCode::Down | KeyCode::PageUp | KeyCode::PageDown | KeyCode::Home | KeyCode::End | KeyCode::Char('j')
        | KeyCode::Char('g') | KeyCode::Char('G') => (navigate_spec(s, code), EffectView::Nothing),
        _ => if details {
            (details_key_spec(s, code), EffectView::Nothing)
        } else {
            (table_key_spec(s, code), EffectView::Nothing)
        },
    }
}

/// A key on the table that the shared keys do not handle.
#[verifier::opaque]
pub open spec fn table_key_spec(s: AppView, code: KeyCode) -> AppView {
    match code {
        KeyCode::Enter => open_details_spec(s),
        KeyCode::Char('1') | KeyCode::Char('2') => scope_spec(s, code == KeyCode::Char('2')),
        KeyCode::Char('s') => port_scope_spec(s),
        KeyCode::Char(' ') => toggle_spec(s),
        KeyCode::Char('i') => AppView { hide_inspector: !s.hide_inspector, ..s },
        KeyCode::Tab | KeyCode::Right => open_tree_spec(s),
        KeyCode::Char('n') | KeyCode::Char('p') | KeyCode::Char('m') | KeyCode::Char('c') => refilter_spec(
            AppView { sort: sort_for(code->Char_0), ..s },
        ),
        _ => s,
    }
}

/// What a key does: Ctrl-C quits; otherwise the editor, the review, the help, the focused
/// ancestry or the table handles it, in that order.
#[verifier::opaque]
pub open spec fn key_spec(s: AppView, key: KeyEvent) -> (AppView, EffectView) {
    if key.control && key.code == KeyCode::Char('c') {
        (s, EffectView::Quit)
    } else if s.editing {
        (edit_spec(s, key), EffectView::Nothing)
    } else if s.screen == Screen::Confirm {
        confirm_spec(s, key.code)
    } else if s.screen == Screen::Help {
        help_spec(s, key.code)
    } else {
        match s.tree {
            Some(t) => tree_spec(s, t, key.code),
            None => main_spec(s, key.code),
        }
    }
}

/// The keys whose scrolling cannot overflow: on the help and review screens, scrolling down
/// must stay within `usize`.
pub open spec fn key_fits(s: AppView, key: KeyEvent) -> bool {
    (!(key.control && key.code == KeyCode::Char('c')) && !s.editing && (s.screen == Screen::Confirm || s.screen == Screen::Help)) ==> match key.code {
        KeyCode::Down | KeyCode::Char('j') => s.scroll < usize::MAX,
        KeyCode::PageDown => s.scroll + s.page <= usize::MAX,
        _ => true,
    }
}

/// Select every row's process, or unselect them all when all are selected.
#[verifier::opaque]
pub open spec fn select_all_spec(s: AppView) -> AppView {
    let ids = Set::new(|id: Identity| exists|k: int| 0 <= k < s.rows.len() && s.processes[s.rows[k].process as int].identity == id);
    if ids.subset_of(s.selected) {
        AppView { selected: s.selected.difference(ids), ..s }
    } else {
        AppView { selected: s.selected.union(ids), ..s }
    }
}

/// The identities of processes.
pub open spec fn identities(ps: Seq<ProcessView>) -> Set<Identity> {
    Set::new(|id: Identity| exists|k: int| 0 <= k < ps.len() && ps[k].identity == id)
}

/// Row `r` shows the process with identity `sel` and, when `usage` is given, that usage.
pub open spec fn row_shows(ps: Seq<ProcessView>, r: RowView, sel: Option<Identity>, usage: Option<UsageView>, endpoint: Option<crate::ports::Port>) -> bool {
    &&& sel == Some(ps[r.process as int].identity)
    &&& match usage {
        Some(u) => exists|m: int| 0 <= m < r.usages.len() && ps[r.process as int].usages[r.usages[m] as int] == u,
        None => true,
    }
    &&& match endpoint {
        Some(e) => match r.port {
            Some(j) => ps[r.process as int].ports[j as int] == e,
            None => false,
        },
        None => true,
    }
}

/// The binding under the table cursor, on the Ports tab.
pub open spec fn endpoint_of(s: AppView) -> Option<crate::ports::Port> {
    if s.tab.on && s.cursor < s.rows.len() {
        let row = s.rows[s.cursor as int];
        match row.port {
            Some(j) => if (j as int) < s.processes[row.process as int].ports.len() {
                Some(s.processes[row.process as int].ports[j as int])
            } else {
                None
            },
            None => None,
        }
    } else {
        None
    }
}

/// Rows that show the process with identity `sel` and, when given, the usage.
pub open spec fn shows_fn(ps: Seq<ProcessView>, sel: Option<Identity>, usage: Option<UsageView>, endpoint: Option<crate::ports::Port>) -> spec_fn(RowView) -> bool {
    |r: RowView| row_shows(ps, r, sel, usage, endpoint)
}

/// Rows of the process with identity `id`.
pub open spec fn shows_id_fn(ps: Seq<ProcessView>, id: Option<Identity>) -> spec_fn(RowView) -> bool {
    |r: RowView| Some(ps[r.process as int].identity) == id
}

/// Listed usages of `p` that are the usage `u`.
pub open spec fn same_usage_fn(p: ProcessView, u: Option<UsageView>) -> spec_fn(usize) -> bool {
    |i: usize| Some(p.usages[i as int]) == u
}

/// The usage under the table cursor, when only locked files are shown.
pub open spec fn locked_usage_of(s: AppView) -> Option<UsageView> {
    if s.locked && s.cursor < s.rows.len() {
        let row = s.rows[s.cursor as int];
        let p = s.processes[row.process as int];
        if row.usages.len() > 0 && (row.usages[0] as int) < p.usages.len() {
            Some(p.usages[row.usages[0] as int])
        } else {
            None
        }
    } else {
        None
    }
}

/// The usage under the details cursor, when the details list usages.
pub open spec fn detail_usage_of(s: AppView) -> Option<UsageView> {
    match detail_of(s) {
        Some(p) => if !s.tab.detail && s.usage_cursor < s.usage_rows.len() && (s.usage_rows[s.usage_cursor as int] as int) < p.usages.len() {
            Some(p.usages[s.usage_rows[s.usage_cursor as int] as int])
        } else {
            None
        },
        None => None,
    }
}

/// Take a new scan: keep the selection of processes that still exist, recompute the table
/// and the details, and keep both cursors on the same process and usage where they remain.
#[verifier::opaque]
pub open spec fn replace_spec(s: AppView, processes: Seq<ProcessView>, warnings: Seq<Seq<char>>) -> AppView {
    let sel = match current_of(s) {
        Some(p) => Some(p.identity),
        None => None,
    };
    let usage = locked_usage_of(s);
    let detail_usage = detail_usage_of(s);
    let s1 = refilter_spec(AppView { processes, warnings, selected: s.selected.intersect(identities(processes)), ..s });
    let s2 = match first_where(s1.rows, shows_fn(processes, sel, usage, endpoint_of(s))) {
        Some(k) => AppView { cursor: k as usize, ..s1 },
        None => s1,
    };
    let s3 = filter_details_spec(s2);
    match detail_of(s3) {
        Some(p) => match first_where(s3.usage_rows, same_usage_fn(p, detail_usage)) {
            Some(k) => AppView { usage_cursor: k as usize, ..s3 },
            None => s3,
        },
        None => s3,
    }
}

/// The processes after applying sampled metrics in order, each to the first process with
/// its identity.
#[verifier::opaque]
pub open spec fn metrics_applied(ps: Seq<ProcessView>, ms: Seq<(Identity, Metrics)>) -> Seq<ProcessView>
    decreases ms.len(),
{
    if ms.len() == 0 {
        ps
    } else {
        let prev = metrics_applied(ps, ms.drop_last());
        let (id, m) = ms.last();
        match position_of(prev, id) {
            Some(i) => prev.update(i, ProcessView { memory: m.memory, cpu: m.cpu, ..prev[i] }),
            None => prev,
        }
    }
}

/// Take sampled metrics; when the table is ordered by them, re-sort it and keep the cursor
/// on the same process.
#[verifier::opaque]
pub open spec fn metrics_spec(s: AppView, ms: Seq<(Identity, Metrics)>) -> AppView {
    let ps = metrics_applied(s.processes, ms);
    let s1 = AppView { processes: ps, ..s };
    if s.sort == Sort::Cpu || s.sort == Sort::Memory {
        let id = match current_of(s1) {
            Some(p) => Some(p.identity),
            None => None,
        };
        let rows = stable_sort(s.rows, row_order_fn(ps, s.sort));
        let s2 = AppView { rows, ..s1 };
        match first_where(rows, shows_id_fn(ps, id)) {
            Some(k) => AppView { cursor: k as usize, ..s2 },
            None => s2,
        }
    } else {
        s1
    }
}

/// The state invariant: rows name existing processes and usages, the ancestry cursor is on
/// a node, and the text cursor is inside the text being edited.
#[verifier::opaque]
pub open spec fn valid(s: AppView) -> bool {
    &&& crate::ranking::rows_valid(s.rows, s.processes)
    &&& match s.tree {
        Some(t) => t.cursor < t.nodes.len(),
        None => true,
    }
    &&& s.editing ==> s.input_cursor <= input_of(s).len()
}

/// The state before the first scan.
pub open spec fn initial_spec(path: Seq<u8>, directory: bool, identity: Option<(u64, u64)>, version: Seq<char>) -> AppView {
    AppView {
        target_path: path,
        target_directory: directory,
        target_identity: identity,
        version,
        processes: Seq::empty(),
        warnings: Seq::empty(),
        rows: Seq::empty(),
        cursor: 0,
        screen: Screen::Main,
        locked: false,
        tab: PortTabView { on: false, all: true, query: Seq::empty(), seen: false, detail: false },
        sort: Sort::Relevance,
        selected: Set::empty(),
        query: Seq::empty(),
        detail_query: Seq::empty(),
        editing: false,
        edit_before: Seq::empty(),
        input_cursor: 0,
        detail_id: None,
        detail_scope: None,
        detail_locks: false,
        usage_rows: Seq::empty(),
        usage_cursor: 0,
        path_page: 0,
        tree: None,
        hide_inspector: false,
        auto: false,
        scanning: false,
        stopping: false,
        pulse: 0,
        pending: Seq::empty(),
        force: false,
        confirm: false,
        parent_action: false,
        scroll: 0,
        status: Seq::empty(),
        error: false,
        width: 80,
        height: 24,
        page: 10,
    }
}

/// New rows that are valid keep the state valid.
pub proof fn lemma_valid_rows(s: AppView, t: AppView)
    requires
        valid(s),
        crate::ranking::rows_valid(t.rows, t.processes),
        t.processes == s.processes,
        t.tree == s.tree,
        t.editing == s.editing,
        t.input_cursor == s.input_cursor,
        t.screen == s.screen,
        t.query == s.query,
        t.detail_query == s.detail_query,
        t.tab == s.tab,
    ensures
        valid(t),
{
    reveal(valid);
}

/// Editing text leaves the editing flag as it was.
pub proof fn lemma_insert_keeps_editing(s: AppView, c: char)
    ensures
        insert_spec(s, c).editing == s.editing,
{
    reveal(insert_spec);
    reveal(changed_spec);
    reveal(refilter_spec);
    reveal(filter_details_spec);
}

/// Choosing termination targets leaves the editing flag as it was.
pub proof fn lemma_kill_keeps_editing(s: AppView, code: KeyCode)
    ensures
        kill_base(s, code).editing == s.editing,
        kill_choice(kill_base(s, code), code).editing == s.editing,
{
    reveal(kill_base);
    reveal(kill_choice);
    reveal(screen_choice);
    reveal(table_choice);
    reveal(rows_choice);
    reveal(pick_ancestor_spec);
    reveal(pick_process_spec);
}

/// What a key does on the help screen: 0 closes it, 1 scrolls, 2 and 3 open the source and
/// the donation addresses, 4 nothing.
pub open spec fn help_action(code: KeyCode) -> u8 {
    match code {
        KeyCode::Esc | KeyCode::Char('q') | KeyCode::Char('?') => 0,
        KeyCode::Up | KeyCode::Down | KeyCode::Char('j') | KeyCode::PageUp | KeyCode::PageDown => 1,
        KeyCode::Char('R') => 2,
        KeyCode::Char('D') => 3,
        _ => 4,
    }
}

/// What a key does with the ancestry focused: 0 unfocuses it, 1 to 4 move its cursor,
/// 5 terminates, 6 switches the table's scope, 7 quits, 8 nothing, 9 opens the Ports tab.
pub open spec fn tree_action(code: KeyCode) -> u8 {
    match code {
        KeyCode::Esc | KeyCode::Left | KeyCode::Tab | KeyCode::BackTab | KeyCode::Char('i') => 0,
        KeyCode::Up => 1,
        KeyCode::Down | KeyCode::Char('j') => 2,
        KeyCode::Home => 3,
        KeyCode::End => 4,
        KeyCode::Char('k') | KeyCode::Char('x') => 5,
        KeyCode::Char('1') | KeyCode::Char('2') => 6,
        KeyCode::Char('q') => 7,
        KeyCode::Char('3') => 9,
        _ => 8,
    }
}

/// What a key does on the table or the details: 0 quits or leaves the details, 1 edits the
/// query, 2 scans, 3 toggles automatic scans, 4 terminates, 5 shows help, 6 and 7 open the
/// source and donation addresses, 8 escapes, 9 navigates, 10 depends on the screen, 11 opens
/// the Ports tab.
pub open spec fn main_action(code: KeyCode) -> u8 {
    match code {
        KeyCode::Char('q') => 0,
        KeyCode::Char('/') => 1,
        KeyCode::Char('r') => 2,
        KeyCode::Char('a') => 3,
        KeyCode::Char('k') | KeyCode::Char('K') | KeyCode::Char('x') | KeyCode::Char('X') => 4,
        KeyCode::Char('?') => 5,
        KeyCode::Char('R') => 6,
        KeyCode::Char('D') => 7,
        KeyCode::Esc => 8,
        KeyCode::Char('3') => 11,
        KeyCode::Up | KeyCode::Down | KeyCode::PageUp | KeyCode::PageDown | KeyCode::Home | KeyCode::End | KeyCode::Char('j')
        | KeyCode::Char('g') | KeyCode::Char('G') => 9,
        _ => 10,
    }
}

/// What another key does on the details: 0 toggles locked files only, 1 and 2 page through
/// paths, 3 nothing, 4 switches between usages and bindings.
pub open spec fn details_action(code: KeyCode) -> u8 {
    match code {
        KeyCode::Char('l') => 0,
        KeyCode::Left => 1,
        KeyCode::Right => 2,
        KeyCode::Char('f') => 4,
        _ => 3,
    }
}

/// What another key does on the table: 0 opens the details, 1 switches the scope, 2 toggles
/// the selection, 3 toggles the inspector, 4 focuses the ancestry, 5 sorts, 6 nothing, 7
/// switches the Ports tab's scope.
pub open spec fn table_action(code: KeyCode) -> u8 {
    match code {
        KeyCode::Enter => 0,
        KeyCode::Char('1') | KeyCode::Char('2') => 1,
        KeyCode::Char(' ') => 2,
        KeyCode::Char('i') => 3,
        KeyCode::Tab | KeyCode::Right => 4,
        KeyCode::Char('n') | KeyCode::Char('p') | KeyCode::Char('m') | KeyCode::Char('c') => 5,
        KeyCode::Char('s') => 7,
        _ => 6,
    }
}

/// Texts joined by a separator.
pub open spec fn join_with(ws: Seq<Seq<char>>, sep: Seq<char>) -> Seq<char>
    decreases ws.len(),
{
    if ws.len() == 0 {
        Seq::empty()
    } else if ws.len() == 1 {
        ws[0]
    } else {
        join_with(ws.drop_last(), sep) + sep + ws.last()
    }
}

/// The status after termination requests: how many were sent, and the failures.
pub open spec fn killed_status(sent: nat, errors: Seq<Seq<char>>) -> Seq<char> {
    crate::text::decimal(sent) + " termination requests sent"@ + (if errors.len() == 0 {
        Seq::empty()
    } else {
        " · "@ + join_with(errors, "; "@)
    })
}

/// Termination requests were answered: report them; after any was sent, the ancestry and
/// the selection are cleared.
#[verifier::opaque]
pub open spec fn killed_spec(s: AppView, sent: nat, errors: Seq<Seq<char>>) -> AppView {
    let s1 = AppView { stopping: false, error: errors.len() > 0, status: killed_status(sent, errors), ..s };
    if sent > 0 {
        AppView { tree: None, selected: Set::empty(), ..s1 }
    } else {
        s1
    }
}

/// A scan ended: take its snapshot; ignore a cancellation; report a failure.
#[verifier::opaque]
pub open spec fn scan_finished_spec(s: AppView, result: Result<crate::model::Snapshot, crate::model::Error>) -> AppView {
    let s1 = AppView { scanning: false, ..s };
    match result {
        Ok(snapshot) => replace_spec(s1, snapshot@.processes, snapshot@.warnings),
        Err(crate::model::Error::Cancelled) => s1,
        Err(e) => AppView { status: "Scan failed: "@ + crate::model::error_text(e), error: true, ..s1 },
    }
}

/// A key press: Ctrl-A on the table selects every row; everything else is a key.
#[verifier::opaque]
pub open spec fn press_spec(s: AppView, key: KeyEvent) -> (AppView, EffectView) {
    if !s.editing && s.screen == Screen::Main && s.tree is None && key.code == KeyCode::Char('a') && key.control {
        (select_all_spec(s), EffectView::Nothing)
    } else {
        key_spec(s, key)
    }
}

} // verus!
