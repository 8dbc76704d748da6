//! The decisions of the interactive view: tab titles and navigation.

use vstd::prelude::*;
use crate::report::{level_count, mark_of, Level, Section};
use crate::text::{decimal, push_decimal, push_str};

verus! {

/// A key press, as the view reads it.
#[derive(Debug, Clone, Copy, PartialEq, Eq, Structural)]
pub enum Key {
    /// `q`, Esc or Ctrl-C.
    Quit,
    /// Right, Tab or `l`.
    Next,
    /// Left, Shift-Tab or `h`.
    Prev,
    /// Down or `j`.
    Down,
    /// Up or `k`.
    Up,
    PageDown,
    PageUp,
    /// Any other key.
    Other,
}

/// A key as the terminal reports it: the keys the view reads, and any
/// other.
#[derive(Debug, Clone, Copy, PartialEq, Eq, Structural)]
pub enum Press {
    Char(char),
    Esc,
    Tab,
    BackTab,
    Left,
    Right,
    Up,
    Down,
    PageUp,
    PageDown,
    Other,
}

/// What a key press means (`ctrl` where Control was held): `q`, Esc and
/// Ctrl-C quit; Right, Tab and `l` go to the next tab, Left, Shift-Tab and
/// `h` to the previous one; Down and `j`, Up and `k`, PageDown and PageUp
/// scroll.
pub open spec fn key_action(code: Press, ctrl: bool) -> Key {
    match code {
        Press::Char(c) => if c == 'q' || (c == 'c' && ctrl) {
            Key::Quit
        } else if c == 'l' {
            Key::Next
        } else if c == 'h' {
            Key::Prev
        } else if c == 'j' {
            Key::Down
        } else if c == 'k' {
            Key::Up
        } else {
            Key::Other
        },
        Press::Esc => Key::Quit,
        Press::Right | Press::Tab => Key::Next,
        Press::Left | Press::BackTab => Key::Prev,
        Press::Down => Key::Down,
        Press::Up => Key::Up,
        Press::PageDown => Key::PageDown,
        Press::PageUp => Key::PageUp,
        Press::Other => Key::Other,
    }
}

/// The action of a key press.
pub fn key_of(code: Press, ctrl: bool) -> (k: Key)
    ensures
        k == key_action(code, ctrl),
{
    match code {
        Press::Char('q') | Press::Esc => Key::Quit,
        Press::Char('c') if ctrl => Key::Quit,
        Press::Right | Press::Tab | Press::Char('l') => Key::Next,
        Press::Left | Press::BackTab | Press::Char('h') => Key::Prev,
        Press::Down | Press::Char('j') => Key::Down,
        Press::Up | Press::Char('k') => Key::Up,
        Press::PageDown => Key::PageDown,
        Press::PageUp => Key::PageUp,
        _ => Key::Other,
    }
}

/// The selected tab and how far its body is scrolled.
pub struct Nav {
    pub tab: usize,
    pub scroll: u16,
}

/// The last line a body of `len` lines can be scrolled to (as a `u16`,
/// keeping the low 16 bits).
pub open spec fn max_scroll(len: nat) -> u16 {
    (if len > 0 {
        len - 1
    } else {
        0
    }) as u16
}

/// What a key does: the next (tab, scroll), and whether the view closes.
pub open spec fn on_key_spec(tab: usize, scroll: u16, key: Key, n: usize, len: nat) -> (usize, u16, bool) {
    let max = max_scroll(len);
    match key {
        Key::Quit => (tab, scroll, true),
        Key::Next => (((tab + 1) % (n as int)) as usize, 0, false),
        Key::Prev => (((tab + n - 1) % (n as int)) as usize, 0, false),
        Key::Down => (tab, if scroll + 1 <= max {
            (scroll + 1) as u16
        } else {
            max
        }, false),
        Key::Up => (tab, if scroll >= 1 {
            (scroll - 1) as u16
        } else {
            0
        }, false),
        Key::PageDown => (tab, if scroll + 10 <= max {
            (scroll + 10) as u16
        } else {
            max
        }, false),
        Key::PageUp => (tab, if scroll >= 10 {
            (scroll - 10) as u16
        } else {
            0
        }, false),
        Key::Other => (tab, scroll, false),
    }
}

impl Nav {
    /// The first tab, not scrolled.
    pub fn new() -> (v: Self)
        ensures
            v.tab == 0,
            v.scroll == 0,
    {
        Nav { tab: 0, scroll: 0 }
    }

    /// Selects a tab and scrolls back to its top.
    pub fn select(&mut self, tab: usize)
        ensures
            final(self).tab == tab,
            final(self).scroll == 0,
    {
        self.tab = tab;
        self.scroll = 0;
    }

    /// Handles a key with `n` tabs, the selected one having `len` lines;
    /// returns whether the view closes.
    pub fn on_key(&mut self, key: Key, n: usize, len: usize) -> (quit: bool)
        requires
            old(self).tab < n,
            key == Key::Prev ==> old(self).tab + n <= usize::MAX,
            key == Key::Down ==> old(self).scroll < u16::MAX,
            key == Key::PageDown ==> old(self).scroll + 10 <= u16::MAX,
        ensures
            (final(self).tab, final(self).scroll, quit) == on_key_spec(
                old(self).tab,
                old(self).scroll,
                key,
                n,
                len as nat,
            ),
            final(self).tab < n,
    {
        let max: u16 = len.saturating_sub(1) as u16;
        match key {
            Key::Quit => {
                return true;
            },
            Key::Next => self.select((self.tab + 1) % n),
            Key::Prev => self.select((self.tab + n - 1) % n),
            Key::Down => {
                let next = self.scroll + 1;
                self.scroll = if next <= max {
                    next
                } else {
                    max
                };
            },
            Key::Up => self.scroll = self.scroll.saturating_sub(1),
            Key::PageDown => {
                let next = self.scroll + 10;
                self.scroll = if next <= max {
                    next
                } else {
                    max
                };
            },
            Key::PageUp => self.scroll = self.scroll.saturating_sub(10),
            Key::Other => {},
        }
        false
    }
}

/// A section's tab title: its name, then `✗n` and `!n` where there are any.
pub open spec fn tab_title_of(name: Seq<char>, items: Seq<crate::report::Item>) -> Seq<char> {
    let ng = level_count(items, Level::Ng);
    let warn = level_count(items, Level::Warn);
    name + (if ng > 0 {
        " "@ + mark_of(Level::Ng) + decimal(ng)
    } else {
        seq![]
    }) + (if warn > 0 {
        " "@ + mark_of(Level::Warn) + decimal(warn)
    } else {
        seq![]
    })
}

/// The tab title of a section.
pub fn tab_title(sec: &Section) -> (t: String)
    ensures
        t@ == tab_title_of(sec.name@, sec.items@),
{
    let mut t = sec.name.to_owned();
    let ng = sec.count(Level::Ng);
    if ng > 0 {
        push_str(&mut t, " ");
        push_str(&mut t, Level::Ng.mark());
        push_decimal(&mut t, ng as u128);
    }
    let warn = sec.count(Level::Warn);
    if warn > 0 {
        push_str(&mut t, " ");
        push_str(&mut t, Level::Warn.mark());
        push_decimal(&mut t, warn as u128);
    }
    t
}

/// Tab navigation by key: with `n >= 1` tabs the selected tab stays in
/// range; the view closes exactly on `q`, Esc and Ctrl-C, changing nothing;
/// Right, Tab and `l` select the next tab and Left, Shift-Tab and `h` the
/// previous one, wrapping around, each scrolled to the top; every other key
/// keeps the tab.
pub proof fn lemma_tab_navigation(tab: usize, scroll: u16, code: Press, ctrl: bool, n: usize, len: nat)
    requires
        n >= 1,
        tab < n,
        tab + n <= usize::MAX,
    ensures
        ({
            let r = on_key_spec(tab, scroll, key_action(code, ctrl), n, len);
            let next = code == Press::Right || code == Press::Tab || code == Press::Char('l');
            let prev = code == Press::Left || code == Press::BackTab || code == Press::Char('h');
            &&& r.0 < n
            &&& r.2 <==> (code == Press::Char('q') || code == Press::Esc || (code == Press::Char('c')
                && ctrl))
            &&& r.2 ==> r.0 == tab && r.1 == scroll
            &&& next ==> r.0 == (tab + 1) % (n as int) && r.1 == 0
            &&& prev ==> r.0 == (tab + n - 1) % (n as int) && r.1 == 0
            &&& !next && !prev ==> r.0 == tab
        }),
{
}

/// The letter keys act as the arrows, with or without Control: `j` as
/// Down and `k` as Up (scrolling one line), `l` as Right and Tab, `h` as
/// Left and Shift-Tab; `q` and Esc quit, and `c` quits only with Control.
pub proof fn lemma_letter_keys(ctrl: bool, ctrl2: bool)
    ensures
        key_action(Press::Char('j'), ctrl) == Key::Down && key_action(Press::Down, ctrl2) == Key::Down,
        key_action(Press::Char('k'), ctrl) == Key::Up && key_action(Press::Up, ctrl2) == Key::Up,
        key_action(Press::Char('l'), ctrl) == Key::Next && key_action(Press::Right, ctrl2) == Key::Next
            && key_action(Press::Tab, ctrl2) == Key::Next,
        key_action(Press::Char('h'), ctrl) == Key::Prev && key_action(Press::Left, ctrl2) == Key::Prev
            && key_action(Press::BackTab, ctrl2) == Key::Prev,
        key_action(Press::Char('q'), ctrl) == Key::Quit && key_action(Press::Esc, ctrl2) == Key::Quit,
        key_action(Press::Char('c'), true) == Key::Quit,
        key_action(Press::Char('c'), false) == Key::Other,
        key_action(Press::PageDown, ctrl) == Key::PageDown,
        key_action(Press::PageUp, ctrl) == Key::PageUp,
{
}

/// Scrolling by key: Up and `k` move one line up and Down and `j` one line
/// down, PageUp and PageDown ten, never past the first or the last line;
/// the tab stays.
pub proof fn lemma_scroll_keys(tab: usize, scroll: u16, code: Press, ctrl: bool, n: usize, len: nat)
    ensures
        ({
            let r = on_key_spec(tab, scroll, key_action(code, ctrl), n, len);
            let last = max_scroll(len);
            &&& (code == Press::Up || code == Press::Char('k')) ==> r == (tab, (if scroll >= 1 {
                scroll - 1
            } else {
                0
            }) as u16, false)
            &&& (code == Press::Down || code == Press::Char('j')) ==> r == (tab, (if scroll + 1
                <= last {
                scroll + 1
            } else {
                last as int
            }) as u16, false)
            &&& code == Press::PageUp ==> r == (tab, (if scroll >= 10 {
                scroll - 10
            } else {
                0
            }) as u16, false)
            &&& code == Press::PageDown ==> r == (tab, (if scroll + 10 <= last {
                scroll + 10
            } else {
                last as int
            }) as u16, false)
        }),
{
}

} // verus!
