//! The final merge of a partition: the workers' sorted files become the
//! partition's sorted files.
//!
//! The merge reads the workers' files line by line, a batch per line, pushes
//! every batch through a window heap and writes the batches that leave the
//! heap, a fixed number of lines per file. It holds no file: it says which
//! reader to read next, is told what was read, and says what to write.
use crate::error::DropletError;
use crate::grid::GridBatch;
use crate::grid::GridView;
use crate::sample_saver::take_outputs;
use crate::window_heap::grids_view;
use crate::window_heap::WindowHeap;
use crate::window_heap::WindowView;
use vstd::prelude::*;

verus! {

/// A line to append to a sorted file.
pub struct MergeWrite {
    /// The number of the file: the line goes to `<file_index>.grid`.
    pub file_index: u64,
    /// The batch that makes the line.
    pub gridbuffer: GridBatch,
}

/// A line to append, as a mathematical value.
pub struct WriteView {
    pub file_index: u64,
    pub gridbuffer: GridView,
}

impl View for MergeWrite {
    type V = WriteView;

    open spec fn view(&self) -> WriteView {
        WriteView { file_index: self.file_index, gridbuffer: self.gridbuffer@ }
    }
}

/// The lines of a list, as values.
pub open spec fn writes_view(writes: Seq<MergeWrite>) -> Seq<WriteView> {
    Seq::new(writes.len(), |i: int| writes[i]@)
}

/// The file that line number `line` goes to, counting lines and files from
/// 0, where a file takes `lines_per_file` lines. Where a file takes no line
/// or one, every line has a file of its own.
pub open spec fn file_of_line(line: nat, lines_per_file: nat) -> nat {
    if lines_per_file == 0 {
        line
    } else {
        line / lines_per_file
    }
}

/// The number of the line that comes `offset` lines after line `start`. The
/// count stops at the largest number.
pub open spec fn line_after(start: u64, offset: nat) -> u64 {
    if start + offset <= u64::MAX {
        (start + offset) as u64
    } else {
        u64::MAX
    }
}

/// The lines that the batches `outs` make when `written` lines were written
/// before.
pub open spec fn lines_of(outs: Seq<GridView>, written: u64, lines_per_file: u64) -> Seq<
    WriteView,
> {
    Seq::new(
        outs.len(),
        |i: int|
            WriteView {
                file_index: file_of_line(
                    line_after(written, i as nat) as nat,
                    lines_per_file as nat,
                ) as u64,
                gridbuffer: outs[i],
            },
    )
}

/// Later lines go to later files: the files, read in the order of their
/// numbers, hold the lines in the order in which they were written.
pub proof fn lemma_file_of_line_monotone(a: nat, b: nat, lines_per_file: nat)
    requires
        a <= b,
    ensures
        file_of_line(a, lines_per_file) <= file_of_line(b, lines_per_file),
{
    if lines_per_file > 0 {
        assert(a / lines_per_file <= b / lines_per_file) by (nonlinear_arith)
            requires
                a <= b,
                lines_per_file > 0,
        ;
    }
}

/// No file takes more than `lines_per_file` lines, unless it takes one:
/// lines that go to one file are fewer than `lines_per_file` apart.
pub proof fn lemma_file_of_line_bounded(a: nat, b: nat, lines_per_file: nat)
    requires
        a <= b,
        file_of_line(a, lines_per_file) == file_of_line(b, lines_per_file),
    ensures
        lines_per_file == 0 ==> a == b,
        lines_per_file > 0 ==> b - a < lines_per_file,
{
    if lines_per_file > 0 {
        assert(b - a < lines_per_file) by (nonlinear_arith)
            requires
                a <= b,
                a / lines_per_file == b / lines_per_file,
                lines_per_file > 0,
        ;
    }
}

/// The sorted files are numbered without gaps: the first line goes to file
/// 0, and a line goes to the file of the line before it or to the next.
pub proof fn lemma_file_of_line_step(line: nat, lines_per_file: nat)
    ensures
        file_of_line(0, lines_per_file) == 0,
        file_of_line(line, lines_per_file) <= file_of_line(line + 1, lines_per_file)
            <= file_of_line(line, lines_per_file) + 1,
{
    if lines_per_file > 0 {
        assert(0nat / lines_per_file == 0) by (nonlinear_arith)
            requires
                lines_per_file > 0,
        ;
        let next = (line + 1) as nat;
        assert(line / lines_per_file <= next / lines_per_file <= line / lines_per_file + 1)
            by (nonlinear_arith)
            requires
                lines_per_file > 0,
                next == line + 1,
        ;
    }
}

/// There are no more sorted files than readers. Where the merge writes no
/// more lines than its readers hold, `total`, and the readers hold the same
/// number of lines each on average, or fewer lines than there are readers,
/// every line goes to one of the files `0` to `readers - 1`, each of which
/// takes `total / readers` lines.
pub proof fn lemma_files_at_most_readers(line: nat, lines: nat, total: nat, readers: nat)
    requires
        readers > 0,
        line < lines <= total,
        total % readers == 0 || total < readers,
    ensures
        file_of_line(line, total / readers) < readers,
{
    let per_file = total / readers;
    if total < readers {
        assert(per_file == 0) by (nonlinear_arith)
            requires
                per_file == total / readers,
                total < readers,
        ;
    } else {
        assert(per_file > 0 && per_file * readers == total) by (nonlinear_arith)
            requires
                per_file == total / readers,
                total % readers == 0,
                total >= readers,
                readers > 0,
        ;
        assert(line / per_file < readers) by (nonlinear_arith)
            requires
                line < per_file * readers,
                per_file > 0,
        ;
    }
}

/// The reader that is `d` steps after reader `start`, going round `n`
/// readers.
pub open spec fn round_at(start: nat, d: nat, n: nat) -> nat {
    (start + d) % n
}

/// The first reader at or after `start`, going round, that is not
/// exhausted: the reader `d` steps after `start` for the least `d` that
/// gives one.
pub open spec fn is_next_open(done: Seq<bool>, start: nat, reader: nat) -> bool {
    exists|d: nat|
        {
            &&& d < done.len()
            &&& reader == #[trigger] round_at(start, d, done.len())
            &&& !done[reader as int]
            &&& forall|e: nat| e < d ==> done[#[trigger] round_at(start, e, done.len()) as int]
        }
}

/// Every reader is exhausted.
pub open spec fn all_done(done: Seq<bool>) -> bool {
    forall|i: int| 0 <= i < done.len() ==> #[trigger] done[i]
}

/// A merge as a mathematical value.
pub struct MergeView {
    pub heap: WindowView,
    /// For each reader, whether it is exhausted.
    pub done: Seq<bool>,
    /// For each reader, whether a line of it was pushed.
    pub contributed: Seq<bool>,
    /// Where the search for the next reader starts.
    pub cursor: nat,
    /// Whether the heap is still being filled round-robin.
    pub priming: bool,
    /// The rounds over the readers that priming has made.
    pub round: nat,
    /// The lines written so far.
    pub lines_written: u64,
    /// The lines that a sorted file takes.
    pub lines_per_file: u64,
}

impl MergeView {
    /// A merge of `reader_count` files that hold `total_lines` lines all in
    /// all, before anything was read: priming starts at reader 0, and each
    /// sorted file takes `total_lines / reader_count` lines.
    pub open spec fn initial(
        reader_count: nat,
        window_size: nat,
        batch_size: nat,
        total_lines: u64,
    ) -> MergeView {
        MergeView {
            heap: WindowView::initial(window_size, batch_size),
            done: Seq::new(reader_count, |i: int| false),
            contributed: Seq::new(reader_count, |i: int| false),
            cursor: 0,
            priming: window_size > 0,
            round: 0,
            lines_written: 0,
            lines_per_file: if reader_count == 0 {
                0
            } else {
                (total_lines as nat / reader_count) as u64
            },
        }
    }

    /// Where the search for the next reader starts after reader `reader` was
    /// read. After the end of a file, and after a line while priming goes
    /// on, at the reader after it. After the line that ends priming at the
    /// reader itself. After a line otherwise at the reader whose row left
    /// the heap last, or at the reader itself where no row has left.
    pub open spec fn cursor_after(
        self,
        reader: nat,
        line: bool,
        hint: Option<usize>,
        goes_on: bool,
    ) -> nat {
        if !line || (self.priming && goes_on) {
            (reader + 1) % self.done.len()
        } else if self.priming {
            reader
        } else {
            match hint {
                Some(r) => if r < self.done.len() {
                    r as nat
                } else {
                    reader
                },
                None => reader,
            }
        }
    }

    /// The rounds of priming after reader `reader` was read: one more when
    /// the reader was the last of a round or lies before the cursor.
    pub open spec fn round_after(self, reader: nat) -> nat {
        if self.priming && (reader + 1 == self.done.len() || reader < self.cursor) {
            self.round + 1
        } else {
            self.round
        }
    }

    /// Whether priming goes on after reader `reader` was read and the heap
    /// is `heap`: it ends when the heap is full or has been offered as many
    /// rounds as it has slots.
    pub open spec fn priming_after(self, reader: nat, heap: WindowView) -> bool {
        self.priming && heap.pending.len() != heap.window_size && self.round_after(reader)
            < heap.window_size
    }
}

/// Merges sorted files of batches into sorted files of batches.
pub struct MergeSorter {
    window_heap: WindowHeap,
    done: Vec<bool>,
    contributed: Vec<bool>,
    last_reader_index: usize,
    priming: bool,
    round: usize,
    lines_written: u64,
    lines_per_file: u64,
}

impl View for MergeSorter {
    type V = MergeView;

    closed spec fn view(&self) -> MergeView {
        MergeView {
            heap: self.window_heap@,
            done: self.done@,
            contributed: self.contributed@,
            cursor: self.last_reader_index as nat,
            priming: self.priming,
            round: self.round as nat,
            lines_written: self.lines_written,
            lines_per_file: self.lines_per_file,
        }
    }
}

impl MergeSorter {
    /// The merge's invariant.
    pub closed spec fn wf(&self) -> bool {
        &&& self.window_heap.wf()
        &&& self.contributed.len() == self.done.len()
        &&& self.done.len() > 0 ==> self.last_reader_index < self.done.len()
        &&& self.round <= self.window_heap@.window_size
    }

    /// A well-formed merge has a cursor among its readers and as many
    /// marks as readers.
    pub proof fn lemma_wf_view(&self)
        requires
            self.wf(),
        ensures
            self@.contributed.len() == self@.done.len(),
            self@.done.len() > 0 ==> self@.cursor < self@.done.len(),
            self@.heap.well_formed(),
    {
        self.window_heap.lemma_wf_view();
    }

    /// A merge of `reader_count` files that hold `total_lines` lines all in
    /// all. Each sorted file takes `total_lines / reader_count` lines.
    pub fn new(reader_count: usize, window_size: usize, batch_size: usize, total_lines: u64) -> (merge:
        Self)
        ensures
            merge.wf(),
            merge@ == MergeView::initial(
                reader_count as nat,
                window_size as nat,
                batch_size as nat,
                total_lines,
            ),
    {
        let mut done: Vec<bool> = Vec::new();
        let mut contributed: Vec<bool> = Vec::new();
        let mut i: usize = 0;
        while i < reader_count
            invariant
                i <= reader_count,
                done.len() == i,
                contributed.len() == i,
                forall|k: int| 0 <= k < i ==> !(#[trigger] done[k]),
                forall|k: int| 0 <= k < i ==> !(#[trigger] contributed[k]),
            decreases reader_count - i,
        {
            done.push(false);
            contributed.push(false);
            i += 1;
        }
        let lines_per_file: u64 = if reader_count == 0 {
            0
        } else {
            total_lines / (reader_count as u64)
        };
        let merge = MergeSorter {
            window_heap: WindowHeap::new(window_size, batch_size),
            done,
            contributed,
            last_reader_index: 0,
            priming: window_size > 0,
            round: 0,
            lines_written: 0,
            lines_per_file,
        };
        proof {
            assert(merge@.done =~= Seq::new(reader_count as nat, |i: int| false));
            assert(merge@.contributed =~= Seq::new(reader_count as nat, |i: int| false));
        }
        merge
    }

    /// The number of readers.
    pub fn reader_count(&self) -> (n: usize)
        ensures
            n == self@.done.len(),
    {
        self.done.len()
    }

    /// The lines that a sorted file takes.
    pub fn lines_per_file(&self) -> (n: u64)
        ensures
            n == self@.lines_per_file,
    {
        self.lines_per_file
    }

    /// The lines written so far.
    pub fn lines_written(&self) -> (n: u64)
        ensures
            n == self@.lines_written,
    {
        self.lines_written
    }

    /// The reader to read a line from next: the first one at or after the
    /// cursor, going round, that is not exhausted. `None` when every reader
    /// is exhausted; then it is time to `finish`.
    pub fn next_reader(&self) -> (reader: Option<usize>)
        requires
            self.wf(),
        ensures
            match reader {
                Some(r) => r < self@.done.len() && is_next_open(self@.done, self@.cursor, r as nat),
                None => all_done(self@.done),
            },
    {
        let n = self.done.len();
        if n == 0 {
            return None;
        }
        let mut d: usize = 0;
        while d < n
            invariant
                n == self.done.len(),
                n > 0,
                self.last_reader_index < n,
                d <= n,
                forall|e: nat|
                    e < d ==> self.done@[#[trigger] round_at(
                        self.last_reader_index as nat,
                        e,
                        n as nat,
                    ) as int],
            decreases n - d,
        {
            let r: usize = if self.last_reader_index >= n - d {
                self.last_reader_index - (n - d)
            } else {
                self.last_reader_index + d
            };
            assert(r == round_at(self.last_reader_index as nat, d as nat, n as nat)) by {
                if self.last_reader_index >= n - d {
                    assert((self.last_reader_index as nat + d as nat) % (n as nat) == (
                    self.last_reader_index + d - n) as nat) by (nonlinear_arith)
                        requires
                            n <= self.last_reader_index + d < 2 * n,
                    ;
                } else {
                    assert((self.last_reader_index as nat + d as nat) % (n as nat) == (
                    self.last_reader_index + d) as nat) by (nonlinear_arith)
                        requires
                            0 <= self.last_reader_index + d < n,
                    ;
                }
            }
            if !self.done[r] {
                assert(is_next_open(self@.done, self@.cursor, r as nat)) by {
                    let w = d as nat;
                    assert(w < self@.done.len() && r as nat == round_at(
                        self@.cursor,
                        w,
                        self@.done.len(),
                    ) && !self@.done[r as int]);
                }
                return Some(r);
            }
            d += 1;
        }
        assert(all_done(self@.done)) by {
            assert forall|i: int| 0 <= i < self@.done.len() implies #[trigger] self@.done[i] by {
                let c = self.last_reader_index as int;
                let e: nat = if i >= c {
                    (i - c) as nat
                } else {
                    (i + n - c) as nat
                };
                assert(round_at(c as nat, e, n as nat) == i as nat) by (nonlinear_arith)
                    requires
                        0 <= i < n,
                        0 <= c < n,
                        e == if i >= c {
                            i - c
                        } else {
                            i + n - c
                        },
                ;
                assert(self.done@[round_at(self.last_reader_index as nat, e, n as nat) as int]);
            }
        }
        None
    }

    /// Makes lines of the batches that have left the heap.
    fn write_outputs(&mut self) -> (writes: Vec<MergeWrite>)
        requires
            old(self).wf(),
        ensures
            final(self).wf(),
            writes_view(writes@) == lines_of(
                old(self)@.heap.out,
                old(self)@.lines_written,
                old(self)@.lines_per_file,
            ),
            forall|i: int| 0 <= i < writes@.len() ==> (#[trigger] writes@[i]).gridbuffer.wf(),
            final(self)@ == (MergeView {
                heap: WindowView { out: Seq::empty(), ..old(self)@.heap },
                lines_written: line_after(old(self)@.lines_written, old(self)@.heap.out.len()),
                ..old(self)@
            }),
    {
        let outs = take_outputs(&mut self.window_heap);
        let ghost all = old(self)@.heap.out;
        let ghost start = self.lines_written;
        let mut writes: Vec<MergeWrite> = Vec::new();
        let mut rest = outs;
        let ghost taken = rest@;
        // The batches are moved out from the back, so the list is turned round first.
        let mut turned: Vec<GridBatch> = Vec::new();
        while rest.len() > 0
            invariant
                rest@.len() + turned@.len() == taken.len(),
                forall|i: int| 0 <= i < rest@.len() ==> rest@[i] == taken[i],
                forall|i: int|
                    0 <= i < turned@.len() ==> #[trigger] turned@[i] == taken[taken.len() - 1 - i],
            decreases rest.len(),
        {
            let batch = rest.pop().unwrap();
            turned.push(batch);
        }
        while turned.len() > 0
            invariant
                self.wf(),
                taken.len() == all.len(),
                grids_view(taken) == all,
                forall|i: int| 0 <= i < taken.len() ==> (#[trigger] taken[i]).wf(),
                writes@.len() + turned@.len() == taken.len(),
                forall|i: int|
                    0 <= i < turned@.len() ==> #[trigger] turned@[i] == taken[taken.len() - 1 - i],
                forall|i: int|
                    0 <= i < writes@.len() ==> (#[trigger] writes@[i])@ == lines_of(
                        all,
                        start,
                        self.lines_per_file,
                    )[i],
                forall|i: int| 0 <= i < writes@.len() ==> (#[trigger] writes@[i]).gridbuffer.wf(),
                self.lines_written == line_after(start, writes@.len()),
                self@ == (MergeView {
                    heap: WindowView { out: Seq::empty(), ..old(self)@.heap },
                    lines_written: self.lines_written,
                    ..old(self)@
                }),
            decreases turned.len(),
        {
            let ghost k = writes@.len() as int;
            let batch = turned.pop().unwrap();
            assert(batch == taken[k]);
            assert(grids_view(taken)[k] == batch@);
            let file_index: u64 = if self.lines_per_file == 0 {
                self.lines_written
            } else {
                self.lines_written / self.lines_per_file
            };
            writes.push(MergeWrite { file_index, gridbuffer: batch });
            if self.lines_written < u64::MAX {
                self.lines_written = self.lines_written + 1;
            }
        }
        proof {
            assert(writes_view(writes@) =~= lines_of(all, start, self.lines_per_file));
        }
        writes
    }

    /// Moves the cursor after reader `reader` was read.
    fn advance(&mut self, reader: usize, line: bool)
        requires
            old(self).wf(),
            reader < old(self)@.done.len(),
        ensures
            final(self).wf(),
            final(self)@ == (MergeView {
                cursor: old(self)@.cursor_after(
                    reader as nat,
                    line,
                    old(self)@.heap.out_reader,
                    old(self)@.priming_after(reader as nat, old(self)@.heap),
                ),
                round: if old(self)@.priming_after(reader as nat, old(self)@.heap) {
                    old(self)@.round_after(reader as nat)
                } else {
                    old(self)@.round
                },
                priming: old(self)@.priming_after(reader as nat, old(self)@.heap),
                ..old(self)@
            }),
    {
        let n = self.done.len();
        let next: usize = if reader + 1 == n {
            0
        } else {
            reader + 1
        };
        assert(next == (reader as nat + 1) % (n as nat)) by {
            if reader + 1 == n {
                assert((reader as nat + 1) % (n as nat) == 0) by (nonlinear_arith)
                    requires
                        reader + 1 == n,
                        n > 0,
                ;
            } else {
                assert((reader as nat + 1) % (n as nat) == reader + 1) by (nonlinear_arith)
                    requires
                        reader + 1 < n,
                ;
            }
        }
        let mut goes_on = false;
        let was_priming = self.priming;
        if self.priming {
            let wrapped = reader + 1 == n || reader < self.last_reader_index;
            let full = self.window_heap.is_full();
            let slots = self.window_heap.window_size();
            let rounds_left = if wrapped {
                slots > 0 && self.round < slots - 1
            } else {
                self.round < slots
            };
            if full || !rounds_left {
                self.priming = false;
            } else {
                goes_on = true;
                if wrapped {
                    self.round = self.round + 1;
                }
            }
        }
        let cursor: usize = if !line || (was_priming && goes_on) {
            next
        } else if was_priming {
            reader
        } else {
            match self.window_heap.get_out_reader_index() {
                Some(r) => if r < n {
                    r
                } else {
                    reader
                },
                None => reader,
            }
        };
        self.last_reader_index = cursor;
    }

    /// Takes in the batch of a line that was read from reader `reader` and
    /// hands back the lines to write, in this order.
    ///
    /// Refused: a reader that the merge does not have, with
    /// `InvalidArgument`, and a batch that the heap refuses, with `Fatal`.
    /// Neither changes the merge.
    pub fn on_line(&mut self, reader: usize, gridbuffer: GridBatch) -> (res: Result<
        Vec<MergeWrite>,
        DropletError,
    >)
        requires
            old(self).wf(),
            gridbuffer.wf(),
        ensures
            final(self).wf(),
            match res {
                Ok(writes) => {
                    let pushed = old(self)@.heap.pushed(gridbuffer@, Some(reader));
                    let moved = MergeView { heap: pushed, ..old(self)@ };
                    &&& reader < old(self)@.done.len()
                    &&& old(self)@.heap.accepts(gridbuffer@)
                    &&& writes_view(writes@) == lines_of(
                        pushed.out,
                        old(self)@.lines_written,
                        old(self)@.lines_per_file,
                    )
                    &&& forall|i: int|
                        0 <= i < writes@.len() ==> (#[trigger] writes@[i]).gridbuffer.wf()
                    &&& final(self)@ == (MergeView {
                        heap: WindowView { out: Seq::empty(), ..pushed },
                        contributed: old(self)@.contributed.update(reader as int, true),
                        lines_written: line_after(old(self)@.lines_written, pushed.out.len()),
                        cursor: moved.cursor_after(
                            reader as nat,
                            true,
                            pushed.out_reader,
                            moved.priming_after(reader as nat, pushed),
                        ),
                        round: if moved.priming_after(reader as nat, pushed) {
                            moved.round_after(reader as nat)
                        } else {
                            moved.round
                        },
                        priming: moved.priming_after(reader as nat, pushed),
                        ..old(self)@
                    })
                },
                Err(e) => {
                    &&& final(self)@ == old(self)@
                    &&& e == if reader < old(self)@.done.len() {
                        DropletError::Fatal
                    } else {
                        DropletError::InvalidArgument
                    }
                    &&& reader < old(self)@.done.len() ==> !old(self)@.heap.accepts(gridbuffer@)
                },
            },
    {
        if reader >= self.done.len() {
            return Err(DropletError::InvalidArgument);
        }
        match self.window_heap.push_with_reader_index(gridbuffer, reader) {
            Ok(()) => {},
            Err(_) => {
                return Err(DropletError::Fatal);
            },
        }
        self.contributed[reader] = true;
        self.advance(reader, true);
        let writes = self.write_outputs();
        Ok(writes)
    }

    /// Reader `reader` has no more lines.
    ///
    /// Refused with `InvalidArgument`: a reader that the merge does not
    /// have.
    pub fn on_eof(&mut self, reader: usize) -> (res: Result<(), DropletError>)
        requires
            old(self).wf(),
        ensures
            final(self).wf(),
            match res {
                Ok(()) => reader < old(self)@.done.len() && final(self)@ == (MergeView {
                    done: old(self)@.done.update(reader as int, true),
                    cursor: old(self)@.cursor_after(reader as nat, false, None, false),
                    round: if old(self)@.priming_after(reader as nat, old(self)@.heap) {
                        old(self)@.round_after(reader as nat)
                    } else {
                        old(self)@.round
                    },
                    priming: old(self)@.priming_after(reader as nat, old(self)@.heap),
                    ..old(self)@
                }),
                Err(e) => e == DropletError::InvalidArgument && reader >= old(self)@.done.len()
                    && final(self)@ == old(self)@,
            },
    {
        if reader >= self.done.len() {
            return Err(DropletError::InvalidArgument);
        }
        self.done[reader] = true;
        self.advance(reader, false);
        Ok(())
    }

    /// Reading from reader `reader` has failed. A reader that has given no
    /// line counts as exhausted; the failure of a reader that has given
    /// lines fails the merge with `Fatal` and changes nothing.
    pub fn on_read_error(&mut self, reader: usize) -> (res: Result<(), DropletError>)
        requires
            old(self).wf(),
        ensures
            final(self).wf(),
            match res {
                Ok(()) => reader < old(self)@.done.len() && !old(self)@.contributed[reader as int]
                    && final(self)@ == (MergeView {
                    done: old(self)@.done.update(reader as int, true),
                    cursor: old(self)@.cursor_after(reader as nat, false, None, false),
                    round: if old(self)@.priming_after(reader as nat, old(self)@.heap) {
                        old(self)@.round_after(reader as nat)
                    } else {
                        old(self)@.round
                    },
                    priming: old(self)@.priming_after(reader as nat, old(self)@.heap),
                    ..old(self)@
                }),
                Err(e) => final(self)@ == old(self)@ && if reader >= old(self)@.done.len() {
                    e == DropletError::InvalidArgument
                } else {
                    e == DropletError::Fatal && old(self)@.contributed[reader as int]
                },
            },
    {
        if reader >= self.done.len() {
            return Err(DropletError::InvalidArgument);
        }
        if self.contributed[reader] {
            return Err(DropletError::Fatal);
        }
        self.on_eof(reader)
    }

    /// Ends the merge: the rows that are left in the heap leave, and the
    /// last lines to write are handed back.
    pub fn finish(&mut self) -> (writes: Vec<MergeWrite>)
        requires
            old(self).wf(),
        ensures
            final(self).wf(),
            writes_view(writes@) == lines_of(
                old(self)@.heap.drained().out,
                old(self)@.lines_written,
                old(self)@.lines_per_file,
            ),
            forall|i: int| 0 <= i < writes@.len() ==> (#[trigger] writes@[i]).gridbuffer.wf(),
            final(self)@ == (MergeView {
                heap: WindowView { out: Seq::empty(), ..old(self)@.heap.drained() },
                lines_written: line_after(
                    old(self)@.lines_written,
                    old(self)@.heap.drained().out.len(),
                ),
                ..old(self)@
            }),
    {
        self.window_heap.drain();
        self.write_outputs()
    }
}

} // verus!
