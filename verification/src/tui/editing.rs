//! Editing the query text and moving through lists.
use vstd::prelude::*;
use crate::state::{
    backspace_spec, cancel_edit_spec, clear_input_spec, cursor_right_spec, delete_spec, AppView,
    begin_search_spec, changed_spec, edit_spec, input_of, input_limit, insert_spec, nav_target, navigate_spec,
    paste_spec, with_input, KeyCode, KeyEvent, Screen,
};
use crate::text::{chars_of, is_control, to_string};
use crate::tui::App;

verus! {

impl App {
    /// The characters of the text being edited.
    fn input_chars(&self) -> (r: Vec<char>)
        ensures
            r@ == input_of(self@),
    {
        proof {
            reveal(App::abstraction);
        }
        if self.screen == Screen::Details {
            chars_of(self.detail_query.as_str())
        } else if self.tab.on {
            chars_of(self.tab.query.as_str())
        } else {
            chars_of(self.query.as_str())
        }
    }

    /// Replace the text being edited and put the text cursor at `cursor`.
    fn put_input(&mut self, t: &Vec<char>, cursor: usize)
        requires
            old(self).wf(),
            !old(self).editing || cursor <= t@.len(),
        ensures
            final(self).wf(),
            final(self)@ == (crate::state::AppView { input_cursor: cursor, ..with_input(old(self)@, t@) }),
    {
        proof {
            reveal(App::abstraction);
            reveal(crate::tui::cursor_ok);
        }
        let text = to_string(t);
        if self.screen == Screen::Details {
            self.detail_query = text;
        } else if self.tab.on {
            self.tab.query = text;
        } else {
            self.query = text;
        }
        self.input_cursor = cursor;
    }

    /// After the edited text changed: back to the first entry of the affected list.
    #[verifier::rlimit(80)]
    fn changed(&mut self)
        requires
            old(self).wf(),
        ensures
            final(self).wf(),
            final(self)@ == changed_spec(old(self)@),
    {
        proof {
            reveal(App::abstraction);
        }
        proof {
            reveal(changed_spec);
        }
        if self.screen == Screen::Details {
            self.usage_cursor = 0;
            self.filter_details();
        } else {
            self.cursor = 0;
            self.refilter();
        }
    }

    /// Insert a character at the text cursor, unless the text is full.
    #[verifier::rlimit(80)]
    fn insert(&mut self, c: char)
        requires
            old(self).wf(),
            old(self)@.editing,
        ensures
            final(self).wf(),
            final(self)@.editing,
            final(self)@ == insert_spec(old(self)@, c),
    {
        proof {
            reveal(App::abstraction);
            reveal(crate::tui::cursor_ok);
        }
        proof {
            reveal(insert_spec);
        }
        let mut t = self.input_chars();
        if t.len() >= 256 {
            return;
        }
        let at = self.input_cursor;
        t.insert(at, c);
        self.put_input(&t, at + 1);
        self.changed();
        proof {
            crate::state::lemma_insert_keeps_editing(old(self)@, c);
        }
    }

    /// Insert pasted text, without its control characters, while editing.
    pub fn paste(&mut self, text: &str)
        requires
            old(self).wf(),
        ensures
            final(self).wf(),
            final(self)@ == paste_spec(old(self)@, text@),
    {
        proof {
            reveal(App::abstraction);
        }
        proof {
            reveal(paste_spec);
        }
        if !self.editing {
            return;
        }
        let cs = chars_of(text);
        let mut i: usize = 0;
        assert(cs@.take(0) =~= Seq::<char>::empty());
        while i < cs.len()
            invariant
                i <= cs@.len(),
                cs@ == text@,
                self.wf(),
                self@.editing,
                old(self)@.editing,
                self@ == paste_spec(old(self)@, cs@.take(i as int)),
            decreases cs@.len() - i,
        {
            let c = cs[i];
            proof {
                reveal(paste_spec);
                reveal(App::abstraction);
            }
            assert(cs@.take(i as int + 1).drop_last() =~= cs@.take(i as int));
            if !is_control(c) {
                self.insert(c);
            }
            i = i + 1;
        }
        assert(cs@.take(cs@.len() as int) =~= cs@);
    }

    /// Start editing the current text, remembering it for cancellation.
    pub(crate) fn begin_search(&mut self)
        requires
            old(self).wf(),
        ensures
            final(self).wf(),
            final(self)@ == begin_search_spec(old(self)@),
    {
        proof {
            reveal(App::abstraction);
            reveal(crate::tui::cursor_ok);
        }
        proof {
            reveal(begin_search_spec);
        }
        let t = self.input_chars();
        let before = to_string(&t);
        self.edit_before = before;
        self.editing = true;
        self.input_cursor = t.len();
    }

    /// Where a navigation key moves the cursor of the list in front.
    fn nav_value(&self, code: KeyCode) -> (v: usize)
        ensures
            v == nav_target(self@, code),
    {
        proof {
            reveal(App::abstraction);
        }
        proof {
            reveal(nav_target);
        }
        let details = self.screen == Screen::Details;
        let len = if details { self.usage_rows.len() } else { self.rows.len() };
        let cur = if details { self.usage_cursor } else { self.cursor };
        let moved: usize = match code {
            KeyCode::Up => cur.saturating_sub(1),
            KeyCode::Down | KeyCode::Char('j') => cur.saturating_add(1),
            KeyCode::PageUp => cur.saturating_sub(self.page),
            KeyCode::PageDown => cur.saturating_add(self.page),
            KeyCode::Home | KeyCode::Char('g') => 0,
            KeyCode::End | KeyCode::Char('G') => len.saturating_sub(1),
            _ => cur,
        };
        let last = len.saturating_sub(1);
        if moved < last { moved } else { last }
    }

    /// Put the cursor of the list in front at `v`.
    fn move_to(&mut self, code: KeyCode, v: usize)
        requires
            old(self).wf(),
            v == nav_target(old(self)@, code),
        ensures
            final(self).wf(),
            final(self)@ == navigate_spec(old(self)@, code),
    {
        proof {
            reveal(App::abstraction);
        }
        proof {
            reveal(navigate_spec);
        }
        if self.screen == Screen::Details {
            self.usage_cursor = v;
        } else {
            self.cursor = v;
        }
        self.path_page = 0;
    }

    /// Move the cursor of the list in front.
    pub(crate) fn navigate(&mut self, code: KeyCode)
        requires
            old(self).wf(),
        ensures
            final(self).wf(),
            final(self)@ == navigate_spec(old(self)@, code),
    {
        let v = self.nav_value(code);
        self.move_to(code, v);
    }

    /// Stop editing, keeping the text.
    fn stop_editing(&mut self)
        requires
            old(self).wf(),
        ensures
            final(self).wf(),
            final(self)@ == (AppView { editing: false, ..old(self)@ }),
    {
        proof {
            reveal(App::abstraction);
            reveal(crate::tui::cursor_ok);
        }
        self.editing = false;
    }

    /// Stop editing and restore the text from before.
    #[verifier::rlimit(80)]
    fn cancel_edit(&mut self)
        requires
            old(self).wf(),
        ensures
            final(self).wf(),
            final(self)@ == cancel_edit_spec(old(self)@),
    {
        proof {
            reveal(App::abstraction);
            reveal(crate::tui::cursor_ok);
        }
        proof {
            reveal(cancel_edit_spec);
        }
        let before = chars_of(self.edit_before.as_str());
        let c = self.input_cursor;
        self.editing = false;
        self.put_input(&before, c);
        self.changed();
    }

    /// Delete the character before the text cursor.
    fn backspace(&mut self)
        requires
            old(self).wf(),
            old(self).editing,
        ensures
            final(self).wf(),
            final(self)@ == backspace_spec(old(self)@),
    {
        proof {
            reveal(App::abstraction);
            reveal(crate::tui::cursor_ok);
        }
        proof {
            reveal(backspace_spec);
        }
        let c = self.input_cursor;
        if c > 0 {
            let mut t = self.input_chars();
            t.remove(c - 1);
            self.put_input(&t, c - 1);
            self.changed();
        }
    }

    /// Delete the character at the text cursor.
    fn delete_forward(&mut self)
        requires
            old(self).wf(),
        ensures
            final(self).wf(),
            final(self)@ == delete_spec(old(self)@),
    {
        proof {
            reveal(App::abstraction);
            reveal(crate::tui::cursor_ok);
        }
        proof {
            reveal(delete_spec);
        }
        let c = self.input_cursor;
        let mut t = self.input_chars();
        if c < t.len() {
            t.remove(c);
            self.put_input(&t, c);
            self.changed();
        }
    }

    /// Move the text cursor one character left.
    fn cursor_left(&mut self)
        requires
            old(self).wf(),
        ensures
            final(self).wf(),
            final(self)@ == (AppView { input_cursor: crate::state::sat_sub(old(self)@.input_cursor, 1), ..old(self)@ }),
    {
        proof {
            reveal(App::abstraction);
            reveal(crate::tui::cursor_ok);
        }
        self.input_cursor = self.input_cursor.saturating_sub(1);
    }

    /// Move the text cursor one character right.
    fn cursor_right(&mut self)
        requires
            old(self).wf(),
        ensures
            final(self).wf(),
            final(self)@ == cursor_right_spec(old(self)@),
    {
        proof {
            reveal(App::abstraction);
            reveal(crate::tui::cursor_ok);
        }
        proof {
            reveal(cursor_right_spec);
        }
        let t = self.input_chars();
        if self.input_cursor < t.len() {
            self.input_cursor = self.input_cursor + 1;
        }
    }

    /// Move the text cursor to the start.
    fn cursor_home(&mut self)
        requires
            old(self).wf(),
        ensures
            final(self).wf(),
            final(self)@ == (AppView { input_cursor: 0, ..old(self)@ }),
    {
        proof {
            reveal(App::abstraction);
            reveal(crate::tui::cursor_ok);
        }
        self.input_cursor = 0;
    }

    /// Move the text cursor to the end.
    fn cursor_end(&mut self)
        requires
            old(self).wf(),
        ensures
            final(self).wf(),
            final(self)@ == (AppView { input_cursor: input_of(old(self)@).len() as usize, ..old(self)@ }),
    {
        proof {
            reveal(App::abstraction);
            reveal(crate::tui::cursor_ok);
        }
        let t = self.input_chars();
        self.input_cursor = t.len();
    }

    /// Clear the text being edited.
    fn clear_input(&mut self)
        requires
            old(self).wf(),
        ensures
            final(self).wf(),
            final(self)@ == clear_input_spec(old(self)@),
    {
        proof {
            reveal(clear_input_spec);
        }
        let empty: Vec<char> = Vec::new();
        self.put_input(&empty, 0);
        self.changed();
    }

    /// A key while editing text.
    #[verifier::rlimit(40)]
    pub(crate) fn edit_key(&mut self, key: KeyEvent)
        requires
            old(self).wf(),
            old(self)@.editing,
        ensures
            final(self).wf(),
            final(self)@ == edit_spec(old(self)@, key),
    {
        proof {
            reveal(edit_spec);
        }
        proof {
            old(self).lemma_editing();
        }
        match key.code {
            KeyCode::Enter => self.stop_editing(),
            KeyCode::Esc => self.cancel_edit(),
            KeyCode::Backspace => self.backspace(),
            KeyCode::Delete => self.delete_forward(),
            KeyCode::Left => self.cursor_left(),
            KeyCode::Right => self.cursor_right(),
            KeyCode::Home => self.cursor_home(),
            KeyCode::End => self.cursor_end(),
            KeyCode::Up | KeyCode::Down => self.navigate(key.code),
            KeyCode::Char(ch) => {
                if ch == 'u' && key.control {
                    self.clear_input();
                } else if !key.control && !key.alt {
                    self.insert(ch);
                }
            },
            _ => {},
        }
    }
}

} // verus!
