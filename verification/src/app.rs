//! The authoritative table state: process list, system snapshot, selection,
//! and sort key. It is owned by the single consumer of the event channel and
//! changed only by the event loop in `events`.

use crate::processes::{ProcessInfo, COLUMN_COUNT};
use crate::sort::sort_seq;
use crate::system_info::SystemInfo;
use vstd::prelude::*;

verus! {

/// The whole state behind the table view.
pub struct App {
    /// Set by the quit key; the event loop stops once it is true.
    pub exit: bool,
    /// The rows currently shown, always sorted by the current key.
    pub processes: Vec<ProcessInfo>,
    /// The latest whole-system snapshot.
    pub system_info: SystemInfo,
    /// The highlighted row, when there is one; never out of range.
    pub selected_index: Option<usize>,
    /// Which column the rows are sorted by; always below [`COLUMN_COUNT`].
    pub sort_column: usize,
    /// Whether the sort runs descending.
    pub sort_desc: bool,
}

/// The mathematical image of an [`App`]: the same fields with the row list
/// as a sequence.
#[verifier::ext_equal]
pub struct AppView {
    pub exit: bool,
    pub processes: Seq<ProcessInfo>,
    pub system_info: SystemInfo,
    pub selected_index: Option<usize>,
    pub sort_column: usize,
    pub sort_desc: bool,
}

impl View for App {
    type V = AppView;

    open spec fn view(&self) -> AppView {
        AppView {
            exit: self.exit,
            processes: self.processes@,
            system_info: self.system_info,
            selected_index: self.selected_index,
            sort_column: self.sort_column,
            sort_desc: self.sort_desc,
        }
    }
}

impl AppView {
    /// The state invariant: the sort column indexes a real column, the
    /// selection (when present) indexes a real row, and the rows are exactly
    /// what the current key sorts them to — the table is never shown in an
    /// order that disagrees with its sort indicator.
    pub open spec fn wf(self) -> bool {
        &&& self.sort_column < COLUMN_COUNT
        &&& self.processes.len() <= usize::MAX
        &&& match self.selected_index {
            Some(i) => i < self.processes.len(),
            None => true,
        }
        &&& self.processes == sort_seq(self.processes, self.sort_column as int, self.sort_desc)
    }
}

impl Default for App {
    /// The initial state, before any event: no rows, uptime zero, nothing
    /// selected, sorted by the first column, descending.
    fn default() -> (r: Self)
        ensures
            r@ == (AppView {
                exit: false,
                processes: Seq::empty(),
                system_info: SystemInfo { uptime: 0 },
                selected_index: None,
                sort_column: 0,
                sort_desc: true,
            }),
            r@.wf(),
    {
        let r = App {
            exit: false,
            processes: Vec::new(),
            system_info: SystemInfo::default(),
            selected_index: None,
            sort_column: 0,
            sort_desc: true,
        };
        proof {
            assert(r@.processes =~= Seq::<ProcessInfo>::empty());
            assert(sort_seq(r@.processes, 0, true) =~= r@.processes);
            assert(r@ =~= (AppView {
                exit: false,
                processes: Seq::empty(),
                system_info: SystemInfo { uptime: 0 },
                selected_index: None,
                sort_column: 0,
                sort_desc: true,
            }));
        }
        r
    }
}

} // verus!
