//! The view controller's decisions: which tab is active, where the cursor
//! moves on each key, and what each panel shows. The terminal work around it
//! (drawing widgets, polling keys) stays with the caller; everything decided
//! here is a function from state and event to the next state and an action.

use vstd::prelude::*;

use crate::codec::{lemma_pad_props, push_pad, push_text, push_u64, spec_u64_digits, ts_bytes};
use crate::cursor::{spec_down, spec_up};
use crate::record::Record;

verus! {

/// The named tabs of the menu bar.
#[derive(Clone, Copy, Debug, PartialEq, Eq, Structural)]
pub enum MenuItem {
    Home,
    Cars,
    Joke,
}

/// A keyboard event as the controller reads it.
#[derive(Clone, Copy, Debug, PartialEq, Eq, Structural)]
pub enum Key {
    Char(char),
    Up,
    Down,
    Other,
}

/// What the event source hands the controller: a key, or the periodic tick
/// that forces a redraw.
#[derive(Clone, Copy, Debug, PartialEq, Eq, Structural)]
pub enum Event {
    Input(Key),
    Tick,
}

/// What the controller asks its caller to do after a key.
#[derive(Clone, Copy, Debug, PartialEq, Eq, Structural)]
pub enum Action {
    Quit,
    AddRecord,
    DeleteAt(usize),
    Idle,
}

/// The controller's whole state: the active tab and the selection cursor.
#[derive(Clone, Copy, Debug, PartialEq, Eq, Structural)]
pub struct UiState {
    pub tab: MenuItem,
    pub cursor: Option<usize>,
}

/// The explicit tab-to-display-index mapping the menu bar highlights by.
pub open spec fn tab_index_spec(t: MenuItem) -> usize {
    match t {
        MenuItem::Home => 0,
        MenuItem::Cars => 1,
        MenuItem::Joke => 2,
    }
}

impl From<MenuItem> for usize {
    fn from(input: MenuItem) -> (r: usize) {
        match input {
            MenuItem::Home => 0,
            MenuItem::Cars => 1,
            MenuItem::Joke => 2,
        }
    }
}

impl vstd::std_specs::convert::FromSpecImpl<MenuItem> for usize {
    open spec fn obeys_from_spec() -> bool {
        true
    }

    open spec fn from_spec(t: MenuItem) -> usize {
        tab_index_spec(t)
    }
}

/// The controller's transition function: the next state and the action each
/// key asks for, over the store's current length `n`. Navigation wraps; a
/// missing cursor or an empty store makes navigation a no-op; deletion asks
/// for the selected index and leaves re-clamping to the moment the store has
/// actually shrunk.
pub open spec fn spec_dispatch(state: UiState, key: Key, n: int) -> (UiState, Action) {
    match key {
        Key::Char(c) => if c == 'q' {
            (state, Action::Quit)
        } else if c == 'h' {
            (UiState { tab: MenuItem::Home, cursor: state.cursor }, Action::Idle)
        } else if c == 'c' {
            (UiState { tab: MenuItem::Cars, cursor: state.cursor }, Action::Idle)
        } else if c == 'j' {
            (UiState { tab: MenuItem::Joke, cursor: state.cursor }, Action::Idle)
        } else if c == 'a' {
            (state, Action::AddRecord)
        } else if c == 'd' {
            match state.cursor {
                Some(i) => (state, Action::DeleteAt(i)),
                None => (state, Action::Idle),
            }
        } else {
            (state, Action::Idle)
        },
        Key::Down => match state.cursor {
            Some(i) => if n > 0 {
                (
                    UiState { tab: state.tab, cursor: Some(spec_down(i as int, n) as usize) },
                    Action::Idle,
                )
            } else {
                (state, Action::Idle)
            },
            None => (state, Action::Idle),
        },
        Key::Up => match state.cursor {
            Some(i) => if n > 0 {
                (
                    UiState { tab: state.tab, cursor: Some(spec_up(i as int, n) as usize) },
                    Action::Idle,
                )
            } else {
                (state, Action::Idle)
            },
            None => (state, Action::Idle),
        },
        Key::Other => (state, Action::Idle),
    }
}

pub fn dispatch(state: UiState, key: Key, store_len: usize) -> (r: (UiState, Action))
    ensures
        r == spec_dispatch(state, key, store_len as int),
{
    match key {
        Key::Char(c) => {
            if c == 'q' {
                (state, Action::Quit)
            } else if c == 'h' {
                (UiState { tab: MenuItem::Home, cursor: state.cursor }, Action::Idle)
            } else if c == 'c' {
                (UiState { tab: MenuItem::Cars, cursor: state.cursor }, Action::Idle)
            } else if c == 'j' {
                (UiState { tab: MenuItem::Joke, cursor: state.cursor }, Action::Idle)
            } else if c == 'a' {
                (state, Action::AddRecord)
            } else if c == 'd' {
                match state.cursor {
                    Some(i) => (state, Action::DeleteAt(i)),
                    None => (state, Action::Idle),
                }
            } else {
                (state, Action::Idle)
            }
        },
        Key::Down => {
            match state.cursor {
                Some(i) => {
                    if store_len > 0 {
                        let next: usize = if i >= store_len - 1 {
                            0
                        } else {
                            i + 1
                        };
                        (UiState { tab: state.tab, cursor: Some(next) }, Action::Idle)
                    } else {
                        (state, Action::Idle)
                    }
                },
                None => (state, Action::Idle),
            }
        },
        Key::Up => {
            match state.cursor {
                Some(i) => {
                    if store_len > 0 {
                        let prev: usize = if i == 0 {
                            store_len - 1
                        } else {
                            i - 1
                        };
                        (UiState { tab: state.tab, cursor: Some(prev) }, Action::Idle)
                    } else {
                        (state, Action::Idle)
                    }
                },
                None => (state, Action::Idle),
            }
        },
        Key::Other => (state, Action::Idle),
    }
}

/// Whenever the store is non-empty and the cursor holds an index into it,
/// every key keeps the cursor inside the store: navigation wraps within the
/// current length and nothing else moves it.
pub proof fn lemma_dispatch_keeps_cursor_valid(state: UiState, key: Key, n: int)
    requires
        n > 0,
        (match state.cursor {
            Some(i) => i < n,
            None => true,
        }),
    ensures
        (match spec_dispatch(state, key, n).0.cursor {
            Some(j) => j < n,
            None => true,
        }),
{
}

/// The menu bar's titles, in display order: the same five fixed labels on
/// every call.
pub fn menu_titles() -> (r: Vec<&'static str>)
    ensures
        r@.len() == 5,
        r@[0]@ == "Home"@,
        r@[1]@ == "Cars"@,
        r@[2]@ == "Add"@,
        r@[3]@ == "Delete"@,
        r@[4]@ == "Quit"@,
{
    let mut v: Vec<&'static str> = Vec::new();
    v.push("Home");
    v.push("Cars");
    v.push("Add");
    v.push("Delete");
    v.push("Quit");
    v
}

/// The static text of the home panel, one entry per line: the same eight
/// fixed lines on every call, independent of store and cursor.
pub fn home_lines() -> (r: Vec<&'static str>)
    ensures
        r@.len() == 8,
        r@[0]@ == ""@,
        r@[1]@ == "Welcome"@,
        r@[2]@ == ""@,
        r@[3]@ == "to"@,
        r@[4]@ == ""@,
        r@[5]@ == "Car-CLI"@,
        r@[6]@ == ""@,
        r@[7]@
            == "Press 'c' to access cars, 'a' to add random new car and 'd' to delete the currently selected car and 'j' for the best joke"@,
{
    let mut v: Vec<&'static str> = Vec::new();
    v.push("");
    v.push("Welcome");
    v.push("");
    v.push("to");
    v.push("");
    v.push("Car-CLI");
    v.push("");
    v.push(
        "Press 'c' to access cars, 'a' to add random new car and 'd' to delete the currently selected car and 'j' for the best joke",
    );
    v
}

/// The static text of the joke panel, one entry per line: the same eleven
/// fixed lines on every call, independent of store and cursor.
pub fn joke_lines() -> (r: Vec<&'static str>)
    ensures
        r@.len() == 11,
        r@[0]@ == ""@,
        r@[1]@ == "Welcome to"@,
        r@[2]@ == ""@,
        r@[3]@ == "JOKE MINUTE"@,
        r@[4]@ == ""@,
        r@[5]@ == "Knok! Knok!"@,
        r@[6]@ == ""@,
        r@[7]@ == "Who's there?"@,
        r@[8]@ == "Control Freak."@,
        r@[9]@ == "Con..."@,
        r@[10]@ == "OK, now you say, 'Control Freak who?'"@,
{
    let mut v: Vec<&'static str> = Vec::new();
    v.push("");
    v.push("Welcome to");
    v.push("");
    v.push("JOKE MINUTE");
    v.push("");
    v.push("Knok! Knok!");
    v.push("");
    v.push("Who's there?");
    v.push("Control Freak.");
    v.push("Con...");
    v.push("OK, now you say, 'Control Freak who?'");
    v
}

/// The list panel's rows: one name per record, in store order.
pub fn record_names(records: &Vec<Record>) -> (r: Vec<Vec<u8>>)
    ensures
        r@.len() == records@.len(),
        forall|k: int| 0 <= k < r@.len() ==> #[trigger] r@[k]@ == records@[k].name@,
{
    let mut r: Vec<Vec<u8>> = Vec::new();
    let mut k: usize = 0;
    while k < records.len()
        invariant
            k <= records.len(),
            r@.len() == k,
            forall|j: int| 0 <= j < k ==> #[trigger] r@[j]@ == records@[j].name@,
        decreases records.len() - k,
    {
        let mut cell: Vec<u8> = Vec::new();
        push_text(&mut cell, &records[k].name);
        r.push(cell);
        k = k + 1;
    }
    r
}

/// A number as the digits the detail table shows.
pub fn u64_text(n: u64) -> (r: Vec<u8>)
    ensures
        r@ == spec_u64_digits(n),
{
    let mut r: Vec<u8> = Vec::new();
    push_u64(&mut r, n);
    r
}

/// A timestamp as the detail table shows it: the stored stamp without its
/// quotes.
pub fn ts_text(t: &crate::record::Timestamp) -> (r: Vec<u8>)
    ensures
        r@ == ts_bytes(*t).subrange(1, 21),
{
    let mut r: Vec<u8> = Vec::new();
    push_pad(&mut r, t.year as u64, 4);
    r.push(0x2d);
    push_pad(&mut r, t.month as u64, 2);
    r.push(0x2d);
    push_pad(&mut r, t.day as u64, 2);
    r.push(0x54);
    push_pad(&mut r, t.hour as u64, 2);
    r.push(0x3a);
    push_pad(&mut r, t.minute as u64, 2);
    r.push(0x3a);
    push_pad(&mut r, t.second as u64, 2);
    r.push(0x5a);
    proof {
        lemma_pad_props(t.year as int, 4);
        lemma_pad_props(t.month as int, 2);
        lemma_pad_props(t.day as int, 2);
        lemma_pad_props(t.hour as int, 2);
        lemma_pad_props(t.minute as int, 2);
        lemma_pad_props(t.second as int, 2);
        assert(r@ =~= ts_bytes(*t).subrange(1, 21));
    }
    r
}

/// The detail table's row for one record: id, name, model, engine, category,
/// age and creation time, each as the text shown in its column.
pub fn record_cells(rec: &Record) -> (r: Vec<Vec<u8>>)
    ensures
        r@.len() == 7,
        r@[0]@ == spec_u64_digits(rec.id),
        r@[1]@ == rec.name@,
        r@[2]@ == rec.model@,
        r@[3]@ == spec_u64_digits(rec.engine),
        r@[4]@ == rec.category@,
        r@[5]@ == spec_u64_digits(rec.age),
        r@[6]@ == ts_bytes(rec.created_at).subrange(1, 21),
{
    let mut r: Vec<Vec<u8>> = Vec::new();
    r.push(u64_text(rec.id));
    let mut name: Vec<u8> = Vec::new();
    push_text(&mut name, &rec.name);
    r.push(name);
    let mut model: Vec<u8> = Vec::new();
    push_text(&mut model, &rec.model);
    r.push(model);
    r.push(u64_text(rec.engine));
    let mut category: Vec<u8> = Vec::new();
    push_text(&mut category, &rec.category);
    r.push(category);
    r.push(u64_text(rec.age));
    r.push(ts_text(&rec.created_at));
    r
}

/// The event source's wait computation: how long to poll for input so that
/// a tick fires once the tick interval has fully elapsed.
pub fn remaining_timeout(tick_ms: u64, elapsed_ms: u64) -> (r: u64)
    ensures
        elapsed_ms >= tick_ms ==> r == 0,
        elapsed_ms < tick_ms ==> r == tick_ms - elapsed_ms,
{
    if elapsed_ms >= tick_ms {
        0
    } else {
        tick_ms - elapsed_ms
    }
}

} // verus!

