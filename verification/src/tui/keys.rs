//! What each key does, screen by screen.
use vstd::prelude::*;
use crate::state::{
    clamp, details_action, details_key_spec, help_action, help_spec, key_fits, key_spec,
    main_action, main_spec, sat_add, sat_sub, sort_for, table_action, table_key_spec, tree_action,
    tree_spec, AppView, Effect, EffectView, KeyCode, KeyEvent, Screen,
};
use crate::ranking::Sort;
use crate::tui::App;

verus! {

fn help_action_of(code: KeyCode) -> (r: u8)
    ensures
        r == help_action(code),
{
    match code {
        KeyCode::Esc | KeyCode::Char('q') | KeyCode::Char('?') => 0,
        KeyCode::Up | KeyCode::Down | KeyCode::Char('j') | KeyCode::PageUp | KeyCode::PageDown => 1,
        KeyCode::Char('R') => 2,
        KeyCode::Char('D') => 3,
        _ => 4,
    }
}

fn tree_action_of(code: KeyCode) -> (r: u8)
    ensures
        r == tree_action(code),
{
    match code {
        KeyCode::Esc | KeyCode::Left | KeyCode::Tab | KeyCode::BackTab | KeyCode::Char('i') => 0,
        KeyCode::Up => 1,
        KeyCode::Down | KeyCode::Char('j') => 2,
        KeyCode::Home => 3,
        KeyCode::End => 4,
        KeyCode::Char('k') | KeyCode::Char('x') => 5,
        KeyCode::Char('1') | KeyCode::Char('2') => 6,
        KeyCode::Char('q') => 7,
        KeyCode::Char('3') => 9,
        _ => 8,
    }
}

fn main_action_of(code: KeyCode) -> (r: u8)
    ensures
        r == main_action(code),
{
    match code {
        KeyCode::Char('q') => 0,
        KeyCode::Char('/') => 1,
        KeyCode::Char('r') => 2,
        KeyCode::Char('a') => 3,
        KeyCode::Char('k') | KeyCode::Char('K') | KeyCode::Char('x') | KeyCode::Char('X') => 4,
        KeyCode::Char('?') => 5,
        KeyCode::Char('R') => 6,
        KeyCode::Char('D') => 7,
        KeyCode::Esc => 8,
        KeyCode::Char('3') => 11,
        KeyCode::Up | KeyCode::Down | KeyCode::PageUp | KeyCode::PageDown | KeyCode::Home | KeyCode::End | KeyCode::Char('j')
        | KeyCode::Char('g') | KeyCode::Char('G') => 9,
        _ => 10,
    }
}

fn details_action_of(code: KeyCode) -> (r: u8)
    ensures
        r == details_action(code),
{
    match code {
        KeyCode::Char('l') => 0,
        KeyCode::Left => 1,
        KeyCode::Right => 2,
        KeyCode::Char('f') => 4,
        _ => 3,
    }
}

fn table_action_of(code: KeyCode) -> (r: u8)
    ensures
        r == table_action(code),
{
    match code {
        KeyCode::Enter => 0,
        KeyCode::Char('1') | KeyCode::Char('2') => 1,
        KeyCode::Char(' ') => 2,
        KeyCode::Char('i') => 3,
        KeyCode::Tab | KeyCode::Right => 4,
        KeyCode::Char('n') | KeyCode::Char('p') | KeyCode::Char('m') | KeyCode::Char('c') => 5,
        KeyCode::Char('s') => 7,
        _ => 6,
    }
}

/// The sort a sorting key chooses.
fn sort_of(c: char) -> (r: Sort)
    ensures
        r == sort_for(c),
{
    if c == 'n' {
        Sort::Name
    } else if c == 'm' {
        Sort::Memory
    } else if c == 'c' {
        Sort::Cpu
    } else {
        Sort::Pid
    }
}

/// A cursor kept inside a list of `len` entries.
fn clamped(c: usize, len: usize) -> (r: usize)
    ensures
        r == clamp(c, len as nat),
{
    if len == 0 {
        0
    } else if c >= len - 1 {
        len - 1
    } else {
        c
    }
}

/// The project's source address.
fn repository() -> (r: &'static str)
    ensures
        r@ == crate::state::repository_url(),
{
    "https://github.com/karimz1/open-file-lock-handle"
}

/// The project's donation address.
fn donation() -> (r: &'static str)
    ensures
        r@ == crate::state::donation_url(),
{
    "https://buymeacoffee.com/karimz1"
}

impl App {
    // ---- help screen ----

    fn help_close(&mut self, code: KeyCode)
        requires
            old(self).wf(),
            !old(self)@.editing,
            help_action(code) == 0,
        ensures
            final(self).wf(),
            final(self)@ == help_spec(old(self)@, code).0,
            help_spec(old(self)@, code).1 == EffectView::Nothing,
    {
        proof {
            reveal(help_spec);
        }
        self.show(Screen::Main);
        self.set_scroll(0);
    }

    fn help_scroll(&mut self, code: KeyCode)
        requires
            old(self).wf(),
            help_action(code) == 1,
            (code == KeyCode::Down || code == KeyCode::Char('j')) ==> old(self)@.scroll < usize::MAX,
            code == KeyCode::PageDown ==> old(self)@.scroll + old(self)@.page <= usize::MAX,
        ensures
            final(self).wf(),
            final(self)@ == help_spec(old(self)@, code).0,
            help_spec(old(self)@, code).1 == EffectView::Nothing,
    {
        proof {
            reveal(help_spec);
        }
        self.scroll_by(code);
    }

    fn help_still(&self, code: KeyCode) -> (e: Effect)
        requires
            help_action(code) >= 2,
        ensures
            help_spec(self@, code).0 == self@,
            e@ == help_spec(self@, code).1,
    {
        proof {
            reveal(help_spec);
        }
        let a = help_action_of(code);
        if a == 2 {
            Effect::Link(repository())
        } else if a == 3 {
            Effect::Link(donation())
        } else {
            Effect::Nothing
        }
    }

    /// A key on the help screen.
    pub(crate) fn help_key(&mut self, code: KeyCode) -> (e: Effect)
        requires
            old(self).wf(),
            !old(self)@.editing,
            (code == KeyCode::Down || code == KeyCode::Char('j')) ==> old(self)@.scroll < usize::MAX,
            code == KeyCode::PageDown ==> old(self)@.scroll + old(self)@.page <= usize::MAX,
        ensures
            final(self).wf(),
            final(self)@ == help_spec(old(self)@, code).0,
            e@ == help_spec(old(self)@, code).1,
    {
        let a = help_action_of(code);
        if a == 0 {
            self.help_close(code);
            Effect::Nothing
        } else if a == 1 {
            self.help_scroll(code);
            Effect::Nothing
        } else {
            self.help_still(code)
        }
    }

    // ---- focused ancestry ----

    /// The ancestry cursor and the number of nodes.
    fn tree_position(&self) -> (r: (usize, usize))
        requires
            self.wf(),
            self@.tree is Some,
        ensures
            r.0 == self@.tree->0.cursor,
            r.1 == self@.tree->0.nodes.len(),
            r.0 < r.1,
    {
        proof {
            reveal(App::abstraction);
            reveal(crate::tui::tree_ok);
        }
        match &self.tree {
            Some(t) => (t.cursor, t.nodes.len()),
            None => (0, 1),
        }
    }

    fn tree_close(&mut self, code: KeyCode)
        requires
            old(self).wf(),
            old(self)@.tree is Some,
            tree_action(code) == 0,
        ensures
            final(self).wf(),
            final(self)@ == tree_spec(old(self)@, old(self)@.tree->0, code).0,
            tree_spec(old(self)@, old(self)@.tree->0, code).1 == EffectView::Nothing,
    {
        proof {
            reveal(tree_spec);
        }
        self.set_tree(None);
    }

    fn tree_move(&mut self, code: KeyCode)
        requires
            old(self).wf(),
            old(self)@.tree is Some,
            1 <= tree_action(code) <= 4,
        ensures
            final(self).wf(),
            final(self)@ == tree_spec(old(self)@, old(self)@.tree->0, code).0,
            tree_spec(old(self)@, old(self)@.tree->0, code).1 == EffectView::Nothing,
    {
        proof {
            reveal(tree_spec);
        }
        let (c, n) = self.tree_position();
        let v = tree_target(code, c, n);
        self.set_tree_cursor(v);
    }

    fn tree_kill(&mut self, code: KeyCode)
        requires
            old(self).wf(),
            !old(self)@.editing,
            old(self)@.tree is Some,
            tree_action(code) == 5,
        ensures
            final(self).wf(),
            final(self)@ == tree_spec(old(self)@, old(self)@.tree->0, code).0,
            tree_spec(old(self)@, old(self)@.tree->0, code).1 == EffectView::Nothing,
    {
        proof {
            reveal(tree_spec);
            self.lemma_review();
        }
        if self.width < 38 || self.height < 22 {
            self.warn("Enlarge the terminal to review the selected ancestor.");
        } else {
            self.prepare_kill(code);
        }
    }

    fn tree_scope(&mut self, code: KeyCode)
        requires
            old(self).wf(),
            !old(self)@.editing,
            old(self)@.tree is Some,
            tree_action(code) == 6,
        ensures
            final(self).wf(),
            final(self)@ == tree_spec(old(self)@, old(self)@.tree->0, code).0,
            tree_spec(old(self)@, old(self)@.tree->0, code).1 == EffectView::Nothing,
    {
        proof {
            reveal(tree_spec);
        }
        self.set_tree(None);
        self.set_scope(code == KeyCode::Char('2'));
    }

    fn tree_ports(&mut self, code: KeyCode) -> (e: Effect)
        requires
            old(self).wf(),
            !old(self)@.editing,
            old(self)@.tree is Some,
            tree_action(code) == 9,
        ensures
            final(self).wf(),
            final(self)@ == tree_spec(old(self)@, old(self)@.tree->0, code).0,
            e@ == tree_spec(old(self)@, old(self)@.tree->0, code).1,
    {
        proof {
            reveal(tree_spec);
        }
        let ghost s0 = self@;
        self.set_tree(None);
        proof {
            reveal(crate::state::ports_spec);
        }
        let e = self.open_ports();
        e
    }

    fn tree_still(&self, code: KeyCode) -> (e: Effect)
        requires
            self@.tree is Some,
            7 <= tree_action(code) <= 8,
        ensures
            tree_spec(self@, self@.tree->0, code).0 == self@,
            e@ == tree_spec(self@, self@.tree->0, code).1,
    {
        proof {
            reveal(tree_spec);
        }
        if code == KeyCode::Char('q') {
            Effect::Quit
        } else {
            Effect::Nothing
        }
    }

    /// A key while the ancestry is focused.
    pub(crate) fn tree_key(&mut self, code: KeyCode) -> (e: Effect)
        requires
            old(self).wf(),
            !old(self)@.editing,
            old(self)@.tree is Some,
        ensures
            final(self).wf(),
            final(self)@ == tree_spec(old(self)@, old(self)@.tree->0, code).0,
            e@ == tree_spec(old(self)@, old(self)@.tree->0, code).1,
    {
        let a = tree_action_of(code);
        if a == 0 {
            self.tree_close(code);
            Effect::Nothing
        } else if a <= 4 {
            self.tree_move(code);
            Effect::Nothing
        } else if a == 5 {
            self.tree_kill(code);
            Effect::Nothing
        } else if a == 6 {
            self.tree_scope(code);
            Effect::Nothing
        } else if a == 9 {
            self.tree_ports(code)
        } else {
            self.tree_still(code)
        }
    }

    // ---- details screen ----

    fn details_locks(&mut self, code: KeyCode)
        requires
            old(self).wf(),
            details_action(code) == 0,
        ensures
            final(self).wf(),
            final(self)@ == details_key_spec(old(self)@, code),
    {
        proof {
            reveal(details_key_spec);
        }
        self.toggle_detail_locks();
    }

    fn details_ports(&mut self, code: KeyCode)
        requires
            old(self).wf(),
            details_action(code) == 4,
        ensures
            final(self).wf(),
            final(self)@ == details_key_spec(old(self)@, code),
    {
        proof {
            reveal(details_key_spec);
        }
        self.toggle_detail_ports();
    }

    fn details_page(&mut self, code: KeyCode)
        requires
            old(self).wf(),
            1 <= details_action(code) <= 2,
        ensures
            final(self).wf(),
            final(self)@ == details_key_spec(old(self)@, code),
    {
        proof {
            reveal(details_key_spec);
            self.lemma_fields();
        }
        let v = page_target(code, self.path_page);
        self.set_path_page(v);
    }

    /// Another key on the details.
    fn details_key(&mut self, code: KeyCode)
        requires
            old(self).wf(),
        ensures
            final(self).wf(),
            final(self)@ == details_key_spec(old(self)@, code),
    {
        let a = details_action_of(code);
        if a == 0 {
            self.details_locks(code);
        } else if a <= 2 {
            self.details_page(code);
        } else if a == 4 {
            self.details_ports(code);
        } else {
            proof {
                reveal(details_key_spec);
            }
        }
    }

    // ---- table ----

    fn table_enter(&mut self, code: KeyCode)
        requires
            old(self).wf(),
            !old(self)@.editing,
            table_action(code) == 0,
        ensures
            final(self).wf(),
            final(self)@ == table_key_spec(old(self)@, code),
    {
        proof {
            reveal(table_key_spec);
        }
        self.open_details();
    }

    fn table_scope(&mut self, code: KeyCode)
        requires
            old(self).wf(),
            !old(self)@.editing,
            table_action(code) == 1,
        ensures
            final(self).wf(),
            final(self)@ == table_key_spec(old(self)@, code),
    {
        proof {
            reveal(table_key_spec);
        }
        self.set_scope(code == KeyCode::Char('2'));
    }

    fn table_toggle(&mut self, code: KeyCode)
        requires
            old(self).wf(),
            table_action(code) == 2,
        ensures
            final(self).wf(),
            final(self)@ == table_key_spec(old(self)@, code),
    {
        proof {
            reveal(table_key_spec);
        }
        self.toggle_selection();
    }

    fn table_inspector(&mut self, code: KeyCode)
        requires
            old(self).wf(),
            table_action(code) == 3,
        ensures
            final(self).wf(),
            final(self)@ == table_key_spec(old(self)@, code),
    {
        proof {
            reveal(table_key_spec);
        }
        self.toggle_inspector();
    }

    fn table_tree(&mut self, code: KeyCode)
        requires
            old(self).wf(),
            table_action(code) == 4,
        ensures
            final(self).wf(),
            final(self)@ == table_key_spec(old(self)@, code),
    {
        proof {
            reveal(table_key_spec);
        }
        self.open_tree();
    }

    fn table_sort(&mut self, code: KeyCode)
        requires
            old(self).wf(),
            table_action(code) == 5,
        ensures
            final(self).wf(),
            final(self)@ == table_key_spec(old(self)@, code),
    {
        proof {
            reveal(table_key_spec);
        }
        let c = match code {
            KeyCode::Char(c) => c,
            _ => 'p',
        };
        let sort = sort_of(c);
        self.sort_by(sort);
    }

    fn table_port_scope(&mut self, code: KeyCode)
        requires
            old(self).wf(),
            table_action(code) == 7,
        ensures
            final(self).wf(),
            final(self)@ == table_key_spec(old(self)@, code),
    {
        proof {
            reveal(table_key_spec);
        }
        self.toggle_port_scope();
    }

    /// Another key on the table.
    fn table_key(&mut self, code: KeyCode)
        requires
            old(self).wf(),
            !old(self)@.editing,
        ensures
            final(self).wf(),
            final(self)@ == table_key_spec(old(self)@, code),
    {
        let a = table_action_of(code);
        if a == 0 {
            self.table_enter(code);
        } else if a == 1 {
            self.table_scope(code);
        } else if a == 2 {
            self.table_toggle(code);
        } else if a == 3 {
            self.table_inspector(code);
        } else if a == 4 {
            self.table_tree(code);
        } else if a == 5 {
            self.table_sort(code);
        } else if a == 7 {
            self.table_port_scope(code);
        } else {
            proof {
                reveal(table_key_spec);
            }
        }
    }

    // ---- table and details ----

    fn main_quit(&mut self, code: KeyCode) -> (e: Effect)
        requires
            old(self).wf(),
            !old(self)@.editing,
            main_action(code) == 0,
        ensures
            final(self).wf(),
            final(self)@ == main_spec(old(self)@, code).0,
            e@ == main_spec(old(self)@, code).1,
    {
        proof {
            reveal(main_spec);
            self.lemma_mode();
        }
        if self.screen == Screen::Details {
            self.show(Screen::Main);
            Effect::Nothing
        } else {
            Effect::Quit
        }
    }

    fn main_search(&mut self, code: KeyCode)
        requires
            old(self).wf(),
            main_action(code) == 1,
        ensures
            final(self).wf(),
            final(self)@ == main_spec(old(self)@, code).0,
            main_spec(old(self)@, code).1 == EffectView::Nothing,
    {
        proof {
            reveal(main_spec);
        }
        self.begin_search();
    }

    fn main_auto(&mut self, code: KeyCode)
        requires
            old(self).wf(),
            main_action(code) == 3,
        ensures
            final(self).wf(),
            final(self)@ == main_spec(old(self)@, code).0,
            main_spec(old(self)@, code).1 == EffectView::Nothing,
    {
        proof {
            reveal(main_spec);
        }
        self.toggle_auto();
    }

    fn main_kill(&mut self, code: KeyCode)
        requires
            old(self).wf(),
            !old(self)@.editing,
            main_action(code) == 4,
        ensures
            final(self).wf(),
            final(self)@ == main_spec(old(self)@, code).0,
            main_spec(old(self)@, code).1 == EffectView::Nothing,
    {
        proof {
            reveal(main_spec);
        }
        self.prepare_kill(code);
    }

    fn main_help(&mut self, code: KeyCode)
        requires
            old(self).wf(),
            !old(self)@.editing,
            main_action(code) == 5,
        ensures
            final(self).wf(),
            final(self)@ == main_spec(old(self)@, code).0,
            main_spec(old(self)@, code).1 == EffectView::Nothing,
    {
        proof {
            reveal(main_spec);
        }
        self.show(Screen::Help);
        self.set_scroll(0);
    }

    fn main_escape(&mut self, code: KeyCode)
        requires
            old(self).wf(),
            !old(self)@.editing,
            main_action(code) == 8,
        ensures
            final(self).wf(),
            final(self)@ == main_spec(old(self)@, code).0,
            main_spec(old(self)@, code).1 == EffectView::Nothing,
    {
        proof {
            reveal(main_spec);
        }
        self.escape();
    }

    fn main_navigate(&mut self, code: KeyCode)
        requires
            old(self).wf(),
            main_action(code) == 9,
        ensures
            final(self).wf(),
            final(self)@ == main_spec(old(self)@, code).0,
            main_spec(old(self)@, code).1 == EffectView::Nothing,
    {
        proof {
            reveal(main_spec);
        }
        self.navigate(code);
    }

    fn main_other(&mut self, code: KeyCode)
        requires
            old(self).wf(),
            !old(self)@.editing,
            main_action(code) == 10,
        ensures
            final(self).wf(),
            final(self)@ == main_spec(old(self)@, code).0,
            main_spec(old(self)@, code).1 == EffectView::Nothing,
    {
        proof {
            reveal(main_spec);
            self.lemma_mode();
        }
        if self.screen == Screen::Details {
            self.details_key(code);
        } else {
            self.table_key(code);
        }
    }

    fn main_ports(&mut self, code: KeyCode) -> (e: Effect)
        requires
            old(self).wf(),
            !old(self)@.editing,
            main_action(code) == 11,
        ensures
            final(self).wf(),
            final(self)@ == main_spec(old(self)@, code).0,
            e@ == main_spec(old(self)@, code).1,
    {
        proof {
            reveal(main_spec);
            self.lemma_mode();
        }
        if self.screen == Screen::Details {
            Effect::Nothing
        } else {
            self.open_ports()
        }
    }

    fn main_still(&self, code: KeyCode) -> (e: Effect)
        requires
            main_action(code) == 2 || main_action(code) == 6 || main_action(code) == 7,
        ensures
            main_spec(self@, code).0 == self@,
            e@ == main_spec(self@, code).1,
    {
        proof {
            reveal(main_spec);
            self.lemma_mode();
        }
        let a = main_action_of(code);
        if a == 2 {
            if self.stopping {
                Effect::Nothing
            } else {
                Effect::Scan
            }
        } else if a == 6 {
            Effect::Link(repository())
        } else {
            Effect::Link(donation())
        }
    }

    /// A key on the table or the details, with no ancestry focused.
    pub(crate) fn main_key(&mut self, code: KeyCode) -> (e: Effect)
        requires
            old(self).wf(),
            !old(self)@.editing,
        ensures
            final(self).wf(),
            final(self)@ == main_spec(old(self)@, code).0,
            e@ == main_spec(old(self)@, code).1,
    {
        let a = main_action_of(code);
        if a == 0 {
            self.main_quit(code)
        } else if a == 1 {
            self.main_search(code);
            Effect::Nothing
        } else if a == 3 {
            self.main_auto(code);
            Effect::Nothing
        } else if a == 4 {
            self.main_kill(code);
            Effect::Nothing
        } else if a == 5 {
            self.main_help(code);
            Effect::Nothing
        } else if a == 8 {
            self.main_escape(code);
            Effect::Nothing
        } else if a == 9 {
            self.main_navigate(code);
            Effect::Nothing
        } else if a == 10 {
            self.main_other(code);
            Effect::Nothing
        } else if a == 11 {
            self.main_ports(code)
        } else {
            self.main_still(code)
        }
    }

    // ---- every key ----

    fn key_quit(&self, key: KeyEvent) -> (e: Effect)
        requires
            key.control && key.code == KeyCode::Char('c'),
        ensures
            key_spec(self@, key).0 == self@,
            e@ == key_spec(self@, key).1,
    {
        proof {
            reveal(key_spec);
        }
        Effect::Quit
    }

    fn key_edit(&mut self, key: KeyEvent)
        requires
            old(self).wf(),
            !(key.control && key.code == KeyCode::Char('c')),
            old(self)@.editing,
        ensures
            final(self).wf(),
            final(self)@ == key_spec(old(self)@, key).0,
            key_spec(old(self)@, key).1 == EffectView::Nothing,
    {
        proof {
            reveal(key_spec);
        }
        self.edit_key(key);
    }

    fn key_review(&mut self, key: KeyEvent) -> (e: Effect)
        requires
            old(self).wf(),
            key_fits(old(self)@, key),
            !(key.control && key.code == KeyCode::Char('c')),
            !old(self)@.editing,
            old(self)@.screen == Screen::Confirm,
        ensures
            final(self).wf(),
            final(self)@ == key_spec(old(self)@, key).0,
            e@ == key_spec(old(self)@, key).1,
    {
        proof {
            reveal(key_spec);
        }
        self.confirm_key(key.code)
    }

    fn key_help(&mut self, key: KeyEvent) -> (e: Effect)
        requires
            old(self).wf(),
            key_fits(old(self)@, key),
            !(key.control && key.code == KeyCode::Char('c')),
            !old(self)@.editing,
            old(self)@.screen == Screen::Help,
        ensures
            final(self).wf(),
            final(self)@ == key_spec(old(self)@, key).0,
            e@ == key_spec(old(self)@, key).1,
    {
        proof {
            reveal(key_spec);
        }
        self.help_key(key.code)
    }

    fn key_tree(&mut self, key: KeyEvent) -> (e: Effect)
        requires
            old(self).wf(),
            !(key.control && key.code == KeyCode::Char('c')),
            !old(self)@.editing,
            old(self)@.screen != Screen::Confirm,
            old(self)@.screen != Screen::Help,
            old(self)@.tree is Some,
        ensures
            final(self).wf(),
            final(self)@ == key_spec(old(self)@, key).0,
            e@ == key_spec(old(self)@, key).1,
    {
        proof {
            reveal(key_spec);
        }
        self.tree_key(key.code)
    }

    fn key_main(&mut self, key: KeyEvent) -> (e: Effect)
        requires
            old(self).wf(),
            !(key.control && key.code == KeyCode::Char('c')),
            !old(self)@.editing,
            old(self)@.screen != Screen::Confirm,
            old(self)@.screen != Screen::Help,
            old(self)@.tree is None,
        ensures
            final(self).wf(),
            final(self)@ == key_spec(old(self)@, key).0,
            e@ == key_spec(old(self)@, key).1,
    {
        proof {
            reveal(key_spec);
        }
        self.main_key(key.code)
    }

    /// Handle a key: Ctrl-C quits; otherwise the editor, the review, the help, the focused
    /// ancestry or the table handles it, in that order.
    pub fn key(&mut self, key: KeyEvent) -> (e: Effect)
        requires
            old(self).wf(),
            key_fits(old(self)@, key),
        ensures
            final(self).wf(),
            final(self)@ == key_spec(old(self)@, key).0,
            e@ == key_spec(old(self)@, key).1,
    {
        proof {
            self.lemma_mode();
        }
        if key.control && key.code == KeyCode::Char('c') {
            self.key_quit(key)
        } else if self.editing {
            self.key_edit(key);
            Effect::Nothing
        } else if self.screen == Screen::Confirm {
            self.key_review(key)
        } else if self.screen == Screen::Help {
            self.key_help(key)
        } else if self.tree.is_some() {
            self.key_tree(key)
        } else {
            self.key_main(key)
        }
    }
}

/// Where an ancestry cursor at `c` among `n` nodes moves for a movement key.
fn tree_target(code: KeyCode, c: usize, n: usize) -> (v: usize)
    requires
        c < n,
        1 <= tree_action(code) <= 4,
    ensures
        v < n,
        code == KeyCode::Up ==> v == sat_sub(c, 1),
        (code == KeyCode::Down || code == KeyCode::Char('j')) ==> v == clamp(sat_add(c, 1), n as nat),
        code == KeyCode::Home ==> v == 0,
        code == KeyCode::End ==> v == sat_sub(n, 1),
{
    match code {
        KeyCode::Up => c.saturating_sub(1),
        KeyCode::Home => 0,
        KeyCode::End => n - 1,
        _ => clamped(c.saturating_add(1), n),
    }
}

/// Where a path page moves for Left and Right.
fn page_target(code: KeyCode, page: usize) -> (v: usize)
    ensures
        code == KeyCode::Left ==> v == sat_sub(page, 1),
        code != KeyCode::Left ==> v == sat_add(page, 1),
{
    if code == KeyCode::Left {
        page.saturating_sub(1)
    } else {
        page.saturating_add(1)
    }
}

} // verus!
