//! Events and the state machine that consumes them.
//!
//! Two producer threads (terminal input and the background sampler) feed one
//! channel; the single consumer drains every pending event each tick and
//! folds them into the [`App`] state. The whole transition is pinned down by
//! the spec function [`step`]: what one event does, and by [`run_steps`]:
//! what a drained batch does, first to last.

use crate::app::{App, AppView};
use crate::processes::{ProcessInfo, COLUMN_COUNT};
use crate::sort::{lemma_sort_idempotent, lemma_sort_seq_props, sort_processes, sort_seq};
use crate::system_info::SystemInfo;
use vstd::prelude::*;

verus! {

/// What kind of key signal arrived: an actual press, or anything else —
/// release and repeat artifacts, which the state machine must ignore.
#[derive(Clone, Copy, PartialEq, Eq, Structural)]
pub enum KeyEventKind {
    Press,
    Other,
}

/// The keys the table reacts to; every key it does not is `Other`.
#[derive(Clone, Copy, PartialEq, Eq)]
pub enum KeyCode {
    Char(char),
    Up,
    Down,
    Left,
    Right,
    Other,
}

/// One key signal from the terminal.
#[derive(Clone, Copy)]
pub struct KeyEvent {
    pub code: KeyCode,
    pub kind: KeyEventKind,
}

/// One message on the event channel: a key signal, a fresh process
/// snapshot, or a fresh system snapshot. Constructed by a producer,
/// consumed exactly once by the event loop.
pub enum Event {
    Input(KeyEvent),
    Processes(Vec<ProcessInfo>),
    SystemInfo(SystemInfo),
}

/// The next sort column to the left, wrapping at the first.
pub open spec fn prev_column(col: usize) -> usize {
    ((col as int + COLUMN_COUNT as int - 1) % (COLUMN_COUNT as int)) as usize
}

/// The next sort column to the right, wrapping at the last.
pub open spec fn next_column(col: usize) -> usize {
    ((col as int + 1) % (COLUMN_COUNT as int)) as usize
}

/// The selection after the table was replaced by `len` rows: gone when the
/// table is empty, clamped to the last row when it shrank past the old
/// selection, otherwise kept.
pub open spec fn clamp_selection(sel: Option<usize>, len: nat) -> Option<usize> {
    if len == 0 {
        None
    } else {
        match sel {
            None => None,
            Some(i) => if i < len {
                Some(i)
            } else {
                Some((len - 1) as usize)
            },
        }
    }
}

/// The state re-sorted by its own current column and direction, selection
/// and everything else kept.
pub open spec fn resort(v: AppView) -> AppView {
    AppView { processes: sort_seq(v.processes, v.sort_column as int, v.sort_desc), ..v }
}

/// The state after the down key: select the first row when nothing was
/// selected, otherwise move one row down, stopping at the last row. An
/// empty table keeps its empty selection.
pub open spec fn step_down(pre: AppView) -> AppView {
    let len = pre.processes.len();
    if len == 0 {
        pre
    } else {
        let ni: usize = match pre.selected_index {
            None => 0usize,
            Some(i) => if i + 1 < len {
                (i + 1) as usize
            } else {
                i
            },
        };
        AppView { selected_index: Some(ni), ..pre }
    }
}

/// The state after the up key: select the first row when nothing was
/// selected, otherwise move one row up, stopping at the first row. An
/// empty table keeps its empty selection.
pub open spec fn step_up(pre: AppView) -> AppView {
    let len = pre.processes.len();
    if len == 0 {
        pre
    } else {
        let ni: usize = match pre.selected_index {
            None => 0usize,
            Some(i) => if i > 0 {
                (i - 1) as usize
            } else {
                0usize
            },
        };
        AppView { selected_index: Some(ni), ..pre }
    }
}

/// The state after one key signal: `q` sets the exit flag; up and down move
/// the selection; left and right rotate the sort column and re-sort; `s`
/// flips the direction and re-sorts; anything else — and anything that is
/// not a press — changes nothing.
pub open spec fn step_key(pre: AppView, key: KeyEvent) -> AppView {
    if key.kind != KeyEventKind::Press {
        pre
    } else {
        match key.code {
            KeyCode::Char(c) => if c == 'q' {
                AppView { exit: true, ..pre }
            } else if c == 's' {
                resort(AppView { sort_desc: !pre.sort_desc, ..pre })
            } else {
                pre
            },
            KeyCode::Down => step_down(pre),
            KeyCode::Up => step_up(pre),
            KeyCode::Left => resort(AppView { sort_column: prev_column(pre.sort_column), ..pre }),
            KeyCode::Right => resort(AppView { sort_column: next_column(pre.sort_column), ..pre }),
            KeyCode::Other => pre,
        }
    }
}

/// The state after one event: a key signal goes through [`step_key`]; a
/// process snapshot replaces the rows, sorted at once by the current key,
/// with the selection clamped into the new table; a system snapshot is
/// taken wholesale.
pub open spec fn step(pre: AppView, event: Event) -> AppView {
    match event {
        Event::Input(key) => step_key(pre, key),
        Event::Processes(procs) => {
            let sorted = sort_seq(procs@, pre.sort_column as int, pre.sort_desc);
            AppView {
                processes: sorted,
                selected_index: clamp_selection(pre.selected_index, sorted.len()),
                ..pre
            }
        },
        Event::SystemInfo(info) => AppView { system_info: info, ..pre },
    }
}

/// The state after a whole batch of events, applied first to last.
pub open spec fn run_steps(pre: AppView, evs: Seq<Event>) -> AppView
    decreases evs.len(),
{
    if evs.len() == 0 {
        pre
    } else {
        run_steps(step(pre, evs[0]), evs.drop_first())
    }
}

/// No key press can push the sort column out of the fixed column set:
/// left and right rotate it modulo the column count, everything else
/// leaves it alone.
pub proof fn lemma_step_key_keeps_sort_column(pre: AppView, key: KeyEvent)
    requires
        pre.sort_column < COLUMN_COUNT,
    ensures
        step_key(pre, key).sort_column < COLUMN_COUNT,
{
}

/// No key press can move the selection outside the table: up and down
/// clamp at the first and last row, and the re-sorting keys keep the
/// table's length.
pub proof fn lemma_step_key_keeps_selection(pre: AppView, key: KeyEvent)
    requires
        pre.processes.len() <= usize::MAX,
        pre.selected_index matches Some(i) ==> i < pre.processes.len(),
    ensures
        step_key(pre, key).selected_index matches Some(i) ==> i < step_key(
            pre,
            key,
        ).processes.len(),
{
    lemma_sort_seq_props(pre.processes, pre.sort_column as int, !pre.sort_desc);
    lemma_sort_seq_props(pre.processes, prev_column(pre.sort_column) as int, pre.sort_desc);
    lemma_sort_seq_props(pre.processes, next_column(pre.sort_column) as int, pre.sort_desc);
}

/// Draining zero events changes nothing: the fold of the transition
/// function over an empty batch is the state itself, every field as it was.
pub proof fn lemma_no_events_no_change(s: AppView)
    ensures
        run_steps(s, Seq::empty()) == s,
{
}

/// One more event at the end of a batch is one more step after the batch.
proof fn lemma_run_steps_push(pre: AppView, evs: Seq<Event>, e: Event)
    ensures
        run_steps(pre, evs.push(e)) == step(run_steps(pre, evs), e),
    decreases evs.len(),
{
    if evs.len() == 0 {
        assert(evs.push(e)[0] == e);
        assert(evs.push(e).drop_first() =~= Seq::<Event>::empty());
        assert(run_steps(pre, evs.push(e)) == run_steps(step(pre, e), Seq::empty()));
    } else {
        assert(evs.push(e)[0] == evs[0]);
        assert(evs.push(e).drop_first() =~= evs.drop_first().push(e));
        lemma_run_steps_push(step(pre, evs[0]), evs.drop_first(), e);
        assert(run_steps(pre, evs.push(e)) == run_steps(step(pre, evs[0]), evs.drop_first().push(e)));
    }
}

/// Handles a single key signal, exactly as [`step_key`] says: the selection
/// can never leave the table and the sort column can never leave the fixed
/// column set.
pub fn handle_key(app: &mut App, key: KeyEvent)
    requires
        old(app)@.wf(),
    ensures
        final(app)@ == step_key(old(app)@, key),
        final(app)@.wf(),
{
    if !matches!(key.kind, KeyEventKind::Press) {
        return ;
    }
    match key.code {
        KeyCode::Char(c) => {
            if c == 'q' {
                app.exit = true;
            } else if c == 's' {
                app.sort_desc = !app.sort_desc;
                let col = app.sort_column;
                let desc = app.sort_desc;
                proof {
                    lemma_sort_seq_props(app@.processes, col as int, desc);
                    lemma_sort_idempotent(app@.processes, col as int, desc);
                }
                sort_processes(&mut app.processes, col, desc);
            }
        },
        KeyCode::Down => {
            let len = app.processes.len();
            if len > 0 {
                let ni: usize = match app.selected_index {
                    None => 0,
                    Some(i) => if i + 1 < len {
                        i + 1
                    } else {
                        i
                    },
                };
                app.selected_index = Some(ni);
            }
        },
        KeyCode::Up => {
            let len = app.processes.len();
            if len > 0 {
                let ni: usize = match app.selected_index {
                    None => 0,
                    Some(i) => if i > 0 {
                        i - 1
                    } else {
                        0
                    },
                };
                app.selected_index = Some(ni);
            }
        },
        KeyCode::Left => {
            app.sort_column = (app.sort_column + (COLUMN_COUNT - 1)) % COLUMN_COUNT;
            let col = app.sort_column;
            let desc = app.sort_desc;
            proof {
                lemma_sort_seq_props(app@.processes, col as int, desc);
                lemma_sort_idempotent(app@.processes, col as int, desc);
            }
            sort_processes(&mut app.processes, col, desc);
        },
        KeyCode::Right => {
            app.sort_column = (app.sort_column + 1) % COLUMN_COUNT;
            let col = app.sort_column;
            let desc = app.sort_desc;
            proof {
                lemma_sort_seq_props(app@.processes, col as int, desc);
                lemma_sort_idempotent(app@.processes, col as int, desc);
            }
            sort_processes(&mut app.processes, col, desc);
        },
        KeyCode::Other => {},
    }
}

/// Applies one event to the state, exactly as [`step`] says.
pub fn apply_event(app: &mut App, event: Event)
    requires
        old(app)@.wf(),
    ensures
        final(app)@ == step(old(app)@, event),
        final(app)@.wf(),
{
    match event {
        Event::Input(key) => handle_key(app, key),
        Event::Processes(procs) => {
            let ghost incoming: Seq<ProcessInfo> = procs@;
            app.processes = procs;
            let col = app.sort_column;
            let desc = app.sort_desc;
            proof {
                lemma_sort_seq_props(incoming, col as int, desc);
                lemma_sort_idempotent(incoming, col as int, desc);
            }
            sort_processes(&mut app.processes, col, desc);
            let len = app.processes.len();
            match app.selected_index {
                Some(i) => {
                    if len == 0 {
                        app.selected_index = None;
                    } else if i >= len {
                        app.selected_index = Some(len - 1);
                    }
                },
                None => {},
            }
        },
        Event::SystemInfo(info) => {
            app.system_info = info;
        },
    }
}

/// Applies a drained batch of events to the state, first to last. The
/// result is exactly the fold of [`step`] over the batch.
pub fn apply_events(app: &mut App, events: Vec<Event>)
    requires
        old(app)@.wf(),
    ensures
        final(app)@ == run_steps(old(app)@, events@),
        final(app)@.wf(),
{
    let ghost s0: AppView = app@;
    let ghost evs0: Seq<Event> = events@;
    let ghost mut processed: Seq<Event> = Seq::empty();
    let mut rest = events;
    proof {
        assert(processed + rest@ =~= evs0);
    }
    while rest.len() > 0
        invariant
            app@.wf(),
            processed + rest@ == evs0,
            app@ == run_steps(s0, processed),
        decreases rest@.len(),
    {
        let e = rest.remove(0);
        let ghost ge: Event = e;
        proof {
            assert(evs0[processed.len() as int] == ge);
            lemma_run_steps_push(s0, processed, ge);
        }
        apply_event(app, e);
        proof {
            processed = processed.push(ge);
            assert(processed + rest@ =~= evs0);
        }
    }
    proof {
        assert(processed =~= evs0);
    }
}

/// The receiving half of the event channel — `std::sync::mpsc`'s — declared
/// so that the event loop can drain it; its inside stays opaque.
#[verifier::external_type_specification]
#[verifier::external_body]
#[verifier::reject_recursive_types(T)]
pub struct ExReceiver<T>(std::sync::mpsc::Receiver<T>);

/// Takes every event pending on the channel right now, in arrival order,
/// without blocking.
///
/// Relies on `std::sync::mpsc::Receiver::try_iter` (collected into a `Vec`):
/// the iterator yields the queued messages until the channel is empty or
/// every sender is gone, and never waits. Which events are pending depends
/// on what the producer threads have managed to send, so nothing is
/// promised of the batch.
#[verifier::external_body]
fn drain_pending(rx: &std::sync::mpsc::Receiver<Event>) -> Vec<Event> {
    rx.try_iter().collect()
}

/// Drains all pending events from the channel and updates the state
/// accordingly, in arrival order. Whatever batch the producers managed to
/// queue, the new state is the fold of [`step`] over that batch, and the
/// state invariant still holds.
pub fn handle_events(app: &mut App, rx: &std::sync::mpsc::Receiver<Event>)
    requires
        old(app)@.wf(),
    ensures
        final(app)@.wf(),
        exists|evs: Seq<Event>| final(app)@ == run_steps(old(app)@, evs),
{
    let events = drain_pending(rx);
    let ghost evs: Seq<Event> = events@;
    apply_events(app, events);
    proof {
        assert(app@ == run_steps(old(app)@, evs));
    }
}

} // verus!
