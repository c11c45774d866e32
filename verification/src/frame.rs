//! The order in which a frame is sampled and written.

use vstd::prelude::*;
use vstd::arithmetic::div_mod::lemma_fundamental_div_mod_converse;

verus! {

/// The size of an image and the number of samples taken for each pixel.
#[derive(Clone, Copy, Debug, PartialEq, Eq, Structural)]
pub struct Frame {
    pub width: u32,
    pub height: u32,
    pub samples: u32,
}

/// A place in the work on a frame: `row` rows are finished, counted from the
/// top, `column` pixels of the current row, and `sample` samples of the
/// current pixel.
#[derive(Clone, Copy, Debug, PartialEq, Eq, Structural)]
pub struct Cursor {
    pub row: u32,
    pub column: u32,
    pub sample: u32,
}

/// One piece of work on a frame. A pixel is named by its column `i`, counted
/// from the left, and its row `j`, counted from the bottom.
#[derive(Clone, Copy, Debug, PartialEq, Eq, Structural)]
pub enum Task {
    /// Take one more sample of the pixel and add it up.
    Sample { i: u32, j: u32 },
    /// Average the pixel's samples and write the pixel out.
    Emit { i: u32, j: u32 },
    /// A row is complete.
    RowDone,
    /// The frame is complete.
    Finished,
}

impl Cursor {
    /// The place before any work.
    pub open spec fn origin() -> Cursor {
        Cursor { row: 0, column: 0, sample: 0 }
    }

    /// The place before any work.
    pub fn start() -> (c: Cursor)
        ensures
            c == Cursor::origin(),
    {
        Cursor { row: 0, column: 0, sample: 0 }
    }
}

impl Frame {
    /// The tasks of one pixel: its samples and its writing.
    pub open spec fn per_pixel(self) -> nat {
        self.samples as nat + 1
    }

    /// The tasks of one row: those of its pixels and its completion.
    pub open spec fn per_row(self) -> nat {
        self.width as nat * self.per_pixel() + 1
    }

    /// The tasks of the whole frame.
    pub open spec fn tasks(self) -> nat {
        self.height as nat * self.per_row()
    }

    /// Whether `c` is a place in this frame.
    pub open spec fn holds(self, c: Cursor) -> bool {
        &&& c.row <= self.height
        &&& c.column <= self.width
        &&& c.sample <= self.samples
        &&& c.column == self.width ==> c.sample == 0
        &&& c.row == self.height ==> c.column == 0 && c.sample == 0
    }

    /// The number of tasks done before the place `c`.
    pub open spec fn position(self, c: Cursor) -> nat {
        c.row as nat * self.per_row() + c.column as nat * self.per_pixel() + c.sample as nat
    }

    /// The task to do at the place `c`.
    pub open spec fn task(self, c: Cursor) -> Task {
        if c.row >= self.height {
            Task::Finished
        } else if c.column >= self.width {
            Task::RowDone
        } else if c.sample >= self.samples {
            Task::Emit { i: c.column, j: (self.height - 1 - c.row) as u32 }
        } else {
            Task::Sample { i: c.column, j: (self.height - 1 - c.row) as u32 }
        }
    }

    /// The place after the task at `c` is done.
    pub open spec fn after(self, c: Cursor) -> Cursor {
        match self.task(c) {
            Task::Finished => c,
            Task::RowDone => Cursor { row: (c.row + 1) as u32, column: 0, sample: 0 },
            Task::Emit { .. } => Cursor { row: c.row, column: (c.column + 1) as u32, sample: 0 },
            Task::Sample { .. } => Cursor {
                row: c.row,
                column: c.column,
                sample: (c.sample + 1) as u32,
            },
        }
    }

    /// The place reached after `n` tasks.
    pub open spec fn run(self, n: nat) -> Cursor
        decreases n,
    {
        if n == 0 {
            Cursor::origin()
        } else {
            self.after(self.run((n - 1) as nat))
        }
    }

    /// The `k`-th task of the frame, counted from zero. Rows come from the
    /// top down, the pixels of a row from left to right, and each pixel has
    /// all its samples taken before it is written.
    pub open spec fn task_at(self, k: nat) -> Task {
        let row = k / self.per_row();
        let rest = k % self.per_row();
        let column = rest / self.per_pixel();
        let sample = rest % self.per_pixel();
        if row >= self.height {
            Task::Finished
        } else if column >= self.width {
            Task::RowDone
        } else if sample >= self.samples {
            Task::Emit { i: column as u32, j: (self.height - 1 - row) as u32 }
        } else {
            Task::Sample { i: column as u32, j: (self.height - 1 - row) as u32 }
        }
    }

    /// Hands out the task at `cursor` and moves the cursor past it.
    pub fn next(&self, cursor: &mut Cursor) -> (task: Task)
        ensures
            task == self.task(*old(cursor)),
            *final(cursor) == self.after(*old(cursor)),
            self.holds(*old(cursor)) ==> self.holds(*final(cursor)),
    {
        if cursor.row >= self.height {
            Task::Finished
        } else if cursor.column >= self.width {
            cursor.row = cursor.row + 1;
            cursor.column = 0;
            cursor.sample = 0;
            Task::RowDone
        } else if cursor.sample >= self.samples {
            let i: u32 = cursor.column;
            cursor.column = cursor.column + 1;
            cursor.sample = 0;
            Task::Emit { i, j: self.height - 1 - cursor.row }
        } else {
            cursor.sample = cursor.sample + 1;
            Task::Sample { i: cursor.column, j: self.height - 1 - cursor.row }
        }
    }
}

/// A place within the frame's rows lies before the end of its row.
proof fn lemma_position_in_row(frame: Frame, c: Cursor)
    requires
        frame.holds(c),
        c.row < frame.height,
    ensures
        c.column * frame.per_pixel() + c.sample <= frame.width * frame.per_pixel(),
        c.column < frame.width ==> c.column * frame.per_pixel() + c.sample < frame.width
            * frame.per_pixel(),
        frame.position(c) < frame.tasks(),
{
    let pp: int = frame.per_pixel() as int;
    let pr: int = frame.per_row() as int;
    let col: int = c.column as int;
    let w: int = frame.width as int;
    let s: int = c.sample as int;
    let row: int = c.row as int;
    let h: int = frame.height as int;
    if col < w {
        assert(col * pp + s < w * pp) by (nonlinear_arith)
            requires
                0 <= col < w,
                0 <= s < pp,
        ;
    }
    assert(row * pr + pr <= h * pr) by (nonlinear_arith)
        requires
            0 <= row < h,
            pr > 0,
    ;
}

/// After `n` tasks the cursor stands at position `n`, until the frame is
/// complete, and then stays at its end.
pub proof fn lemma_run_position(frame: Frame, n: nat)
    ensures
        frame.holds(frame.run(n)),
        n < frame.tasks() ==> frame.run(n).row < frame.height && frame.position(frame.run(n))
            == n,
        n >= frame.tasks() ==> frame.run(n).row == frame.height,
    decreases n,
{
    let pp: int = frame.per_pixel() as int;
    let pr: int = frame.per_row() as int;
    let w: int = frame.width as int;
    let h: int = frame.height as int;
    if n == 0 {
        assert(h * pr > 0 <==> h > 0) by (nonlinear_arith)
            requires
                h >= 0,
                pr > 0,
        ;
        assert(0 * pr + 0 * pp == 0) by (nonlinear_arith);
    } else {
        lemma_run_position(frame, (n - 1) as nat);
        let c = frame.run((n - 1) as nat);
        let d = frame.after(c);
        if c.row < frame.height {
            let row: int = c.row as int;
            let col: int = c.column as int;
            lemma_position_in_row(frame, c);
            if c.column >= frame.width {
                // The row is complete: the next one starts a whole row further.
                assert((row + 1) * pr == row * pr + w * pp + 1) by (nonlinear_arith)
                    requires
                        pr == w * pp + 1,
                ;
                assert(0 * pp == 0) by (nonlinear_arith);
            } else if c.sample >= frame.samples {
                // The pixel is complete: the next one starts a whole pixel further.
                assert((col + 1) * pp == col * pp + pp) by (nonlinear_arith);
            }
            if d.row < frame.height {
                lemma_position_in_row(frame, d);
            }
        }
    }
}

/// The frame's tasks come in raster order: the task after `k` others is the
/// one that `task_at` names.
pub proof fn lemma_scan_order(frame: Frame, k: nat)
    ensures
        frame.task(frame.run(k)) == frame.task_at(k),
{
    let pp: int = frame.per_pixel() as int;
    let pr: int = frame.per_row() as int;
    let h: int = frame.height as int;
    lemma_run_position(frame, k);
    let c = frame.run(k);
    if k < frame.tasks() {
        lemma_position_in_row(frame, c);
        let rest: int = c.column as int * pp + c.sample as int;
        lemma_fundamental_div_mod_converse(k as int, pr, c.row as int, rest);
        if c.column < frame.width {
            lemma_fundamental_div_mod_converse(rest, pp, c.column as int, c.sample as int);
        } else {
            lemma_fundamental_div_mod_converse(rest, pp, c.column as int, 0);
        }
    } else {
        let q: int = k as int / pr;
        vstd::arithmetic::div_mod::lemma_fundamental_div_mod(k as int, pr);
        vstd::arithmetic::div_mod::lemma_mod_pos_bound(k as int, pr);
        assert(q >= h) by (nonlinear_arith)
            requires
                k >= h * pr,
                k == pr * q + (k as int % pr),
                0 <= k as int % pr < pr,
                pr > 0,
        ;
    }
}

} // verus!
