//! The state behind the dashboard: one row per worker and a selected row.
//! Drawing it on a terminal happens outside.
use vstd::prelude::*;
use vstd::string::*;
use vstd::utf8::{decode_utf8, encode_utf8_decode_utf8, is_char_boundary};
use crate::protocol::opt_view;

verus! {

/// One dashboard row.
#[derive(Debug)]
pub struct WorkerDisplay {
    pub tool: String,
    pub directory: String,
    pub status: String,
    pub message: Option<String>,
    pub bytes: Option<u64>,
}

pub struct WorkerDisplayView {
    pub tool: Seq<char>,
    pub directory: Seq<char>,
    pub status: Seq<char>,
    pub message: Option<Seq<char>>,
    pub bytes: Option<u64>,
}

impl View for WorkerDisplay {
    type V = WorkerDisplayView;

    open spec fn view(&self) -> WorkerDisplayView {
        WorkerDisplayView {
            tool: self.tool@,
            directory: self.directory@,
            status: self.status@,
            message: opt_view(self.message),
            bytes: self.bytes,
        }
    }
}

pub open spec fn row_key(w: WorkerDisplayView) -> (Seq<char>, Seq<char>) {
    (w.tool, w.directory)
}

pub open spec fn has_row(rows: Seq<WorkerDisplayView>, k: (Seq<char>, Seq<char>)) -> bool {
    exists|i: int| 0 <= i < rows.len() && row_key(#[trigger] rows[i]) == k
}

/// The rows after an update for `(tool, directory)`: that row takes the new
/// status, message and byte count, or a new row is added at the end.
pub open spec fn rows_update(
    rows: Seq<WorkerDisplayView>,
    tool: Seq<char>,
    directory: Seq<char>,
    status: Seq<char>,
    message: Option<Seq<char>>,
    bytes: Option<u64>,
) -> Seq<WorkerDisplayView> {
    if has_row(rows, (tool, directory)) {
        let i = choose|i: int| 0 <= i < rows.len() && row_key(#[trigger] rows[i]) == (tool, directory);
        rows.update(i, WorkerDisplayView { status, message, bytes, ..rows[i] })
    } else {
        rows.push(WorkerDisplayView { tool, directory, status, message, bytes })
    }
}

/// The dashboard: its rows and the selected one.
pub struct App {
    workers: Vec<WorkerDisplay>,
    selected: usize,
}

impl App {
    pub closed spec fn rows(&self) -> Seq<WorkerDisplayView> {
        self.workers@.map_values(|w: WorkerDisplay| w@)
    }

    pub closed spec fn selection(&self) -> nat {
        self.selected as nat
    }

    /// Rows are unique per tool and directory, and the selection is a row
    /// (or zero when there is none).
    pub open spec fn wf(&self) -> bool {
        &&& forall|i: int, j: int|
            0 <= i < self.rows().len() && 0 <= j < self.rows().len() && i != j ==> row_key(
                #[trigger] self.rows()[i],
            ) != row_key(#[trigger] self.rows()[j])
        &&& if self.rows().len() == 0 {
            self.selection() == 0
        } else {
            self.selection() < self.rows().len()
        }
    }

    /// An empty dashboard.
    pub fn new() -> (r: App)
        ensures
            r.wf(),
            r.rows() == Seq::<WorkerDisplayView>::empty(),
            r.selection() == 0,
    {
        let r = App { workers: Vec::new(), selected: 0 };
        assert(r.rows() =~= Seq::<WorkerDisplayView>::empty());
        r
    }

    /// The selected row's position.
    pub fn selected(&self) -> (r: usize)
        ensures
            r == self.selection(),
    {
        self.selected
    }

    /// The number of rows.
    pub fn len(&self) -> (r: usize)
        ensures
            r == self.rows().len(),
    {
        self.workers.len()
    }

    /// The row at position `i`.
    pub fn row(&self, i: usize) -> (r: &WorkerDisplay)
        requires
            i < self.rows().len(),
        ensures
            r@ == self.rows()[i as int],
    {
        &self.workers[i]
    }

    /// Shows the latest status of the worker `(tool, directory)`.
    pub fn update_worker(
        &mut self,
        tool: &str,
        directory: &str,
        status: &str,
        message: Option<String>,
        bytes: Option<u64>,
    )
        requires
            old(self).wf(),
        ensures
            final(self).wf(),
            final(self).selection() == old(self).selection(),
            final(self).rows() == rows_update(
                old(self).rows(),
                tool@,
                directory@,
                status@,
                opt_view(message),
                bytes,
            ),
    {
        let ghost rows = self.rows();
        let ghost k = (tool@, directory@);
        let t = String::from_str(tool);
        let d = String::from_str(directory);
        let mut i: usize = 0;
        while i < self.workers.len()
            invariant
                i <= self.workers@.len(),
                rows == self.rows(),
                rows == old(self).rows(),
                self.wf(),
                self.selection() == old(self).selection(),
                t@ == tool@,
                d@ == directory@,
                k == (tool@, directory@),
                forall|j: int| 0 <= j < i ==> row_key(#[trigger] rows[j]) != k,
            decreases self.workers.len() - i,
        {
            let w = &self.workers[i];
            assert(rows[i as int] == w@);
            if w.tool == t && w.directory == d {
                assert(row_key(rows[i as int]) == k);
                let ghost c = choose|c: int| 0 <= c < rows.len() && row_key(#[trigger] rows[c]) == k;
                assert(c == i);
                let old_row = &self.workers[i];
                let w = WorkerDisplay {
                    tool: old_row.tool.clone(),
                    directory: old_row.directory.clone(),
                    status: String::from_str(status),
                    message,
                    bytes,
                };
                self.workers.set(i, w);
                assert(self.rows() =~= rows_update(rows, k.0, k.1, status@, opt_view(message), bytes));
                assert forall|a: int, b: int|
                    0 <= a < self.rows().len() && 0 <= b < self.rows().len() && a != b implies row_key(
                    #[trigger] self.rows()[a],
                ) != row_key(#[trigger] self.rows()[b]) by {
                    assert(row_key(self.rows()[a]) == row_key(rows[a]));
                    assert(row_key(self.rows()[b]) == row_key(rows[b]));
                }
                return;
            }
            i = i + 1;
        }
        self.workers.push(
            WorkerDisplay { tool: t, directory: d, status: String::from_str(status), message, bytes },
        );
        assert(self.rows() =~= rows_update(rows, k.0, k.1, status@, opt_view(message), bytes));
        assert forall|a: int, b: int|
            0 <= a < self.rows().len() && 0 <= b < self.rows().len() && a != b implies row_key(
            #[trigger] self.rows()[a],
        ) != row_key(#[trigger] self.rows()[b]) by {
            if a < rows.len() {
                assert(self.rows()[a] == rows[a]);
            }
            if b < rows.len() {
                assert(self.rows()[b] == rows[b]);
            }
        }
    }

    /// Selects the next row, wrapping from the last to the first.
    pub fn next(&mut self)
        requires
            old(self).wf(),
        ensures
            final(self).wf(),
            final(self).rows() == old(self).rows(),
            final(self).selection() == if old(self).rows().len() == 0 {
                old(self).selection()
            } else {
                (old(self).selection() + 1) % old(self).rows().len()
            },
    {
        if self.workers.len() > 0 {
            self.selected = (self.selected + 1) % self.workers.len();
        }
    }

    /// Selects the previous row, wrapping from the first to the last.
    pub fn previous(&mut self)
        requires
            old(self).wf(),
        ensures
            final(self).wf(),
            final(self).rows() == old(self).rows(),
            final(self).selection() == if old(self).rows().len() == 0 {
                old(self).selection()
            } else if old(self).selection() > 0 {
                (old(self).selection() - 1) as nat
            } else {
                (old(self).rows().len() - 1) as nat
            },
    {
        if self.workers.len() > 0 {
            self.selected = if self.selected > 0 {
                self.selected - 1
            } else {
                self.workers.len() - 1
            };
        }
    }
}

/// `n - 3`, or zero below three.
pub open spec fn cut_point(max_len: nat) -> nat {
    if max_len >= 3 {
        (max_len - 3) as nat
    } else {
        0
    }
}

/// Shortens `s` to fit `max_len` bytes: a longer text keeps its first
/// `max_len - 3` bytes and ends in `...`.
pub fn truncate(s: &str, max_len: usize) -> (r: String)
    requires
        s.spec_bytes().len() <= usize::MAX,
        s.spec_bytes().len() <= max_len || is_char_boundary(
            s.spec_bytes(),
            cut_point(max_len as nat) as int,
        ),
    ensures
        s.spec_bytes().len() <= max_len ==> r@ == s@,
        s.spec_bytes().len() > max_len ==> r@ == decode_utf8(
            s.spec_bytes().subrange(0, cut_point(max_len as nat) as int),
        ) + seq!['.', '.', '.'],
{
    if s.len() <= max_len {
        String::from_str(s)
    } else {
        let cut: usize = if max_len >= 3 {
            max_len - 3
        } else {
            0
        };
        let (head, _) = s.split_at(cut);
        proof {
            encode_utf8_decode_utf8(head@);
            assert(head.spec_bytes() == s.spec_bytes().subrange(0, cut as int));
            assert(cut == cut_point(max_len as nat));
            assert(head@ == decode_utf8(s.spec_bytes().subrange(0, cut as int)));
            reveal_strlit("...");
            assert("..."@ =~= seq!['.', '.', '.']);
        }
        let h = String::from_str(head);
        let r = h.concat("...");
        r
    }
}

} // verus!
