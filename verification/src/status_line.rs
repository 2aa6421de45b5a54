//! What the status bar at the bottom of the terminal shows while a solve
//! runs, and where on the screen it goes.

use vstd::prelude::*;
use vstd::string::StrSliceExecFns;
use vstd::utf8::encode_utf8;
use crate::text::{join, join_strings, pad_right, pad_to_width, texts};

verus! {

/// A package resolved so far, as the status bar shows it: its name,
/// version and build, one above the other.
#[derive(Debug)]
pub struct ShownPackage {
    pub name: String,
    pub version: String,
    pub build: String,
}

/// The length of a text in bytes (as `str::len` gives it).
pub open spec fn byte_len(t: Seq<char>) -> usize {
    encode_utf8(t).len() as usize
}

/// The width of a package's column: the longest of its three texts, in
/// bytes.
pub open spec fn column_width(p: ShownPackage) -> usize {
    let a = byte_len(p.name@);
    let b = byte_len(p.version@);
    let c = byte_len(p.build@);
    let ab = if a >= b {
        a
    } else {
        b
    };
    if ab >= c {
        ab
    } else {
        c
    }
}

/// The text of a package in a row: 0 its name, 1 its version, else its
/// build.
pub open spec fn row_text(p: ShownPackage, row: int) -> Seq<char> {
    if row == 0 {
        p.name@
    } else if row == 1 {
        p.version@
    } else {
        p.build@
    }
}

/// The cells of a row, each padded to its column's width.
pub open spec fn row_cells(ps: Seq<ShownPackage>, row: int) -> Seq<Seq<char>> {
    Seq::new(ps.len(), |i: int| pad_right(row_text(ps[i], row), column_width(ps[i]) as int))
}

/// A row of the status bar: its cells joined with " |".
pub open spec fn status_row(ps: Seq<ShownPackage>, row: int) -> Seq<char> {
    join(row_cells(ps, row), " |"@)
}

fn column_width_exec(p: &ShownPackage) -> (r: usize)
    ensures
        r == column_width(*p),
{
    let a = p.name.as_str().len();
    let b = p.version.as_str().len();
    let c = p.build.as_str().len();
    let ab = if a >= b {
        a
    } else {
        b
    };
    if ab >= c {
        ab
    } else {
        c
    }
}

/// The three rows of the status bar for the packages resolved so far: the
/// names, the versions and the builds, each package in a column as wide as
/// its longest text.
pub fn status_rows(packages: &Vec<ShownPackage>) -> (r: Vec<String>)
    ensures
        r@.len() == 3,
        forall|row: int| 0 <= row < 3 ==> (#[trigger] r@[row])@ == status_row(packages@, row),
{
    let mut rows: Vec<String> = Vec::new();
    let mut row: usize = 0;
    while row < 3
        invariant
            0 <= row <= 3,
            rows@.len() == row,
            forall|k: int| 0 <= k < row ==> (#[trigger] rows@[k])@ == status_row(packages@, k),
        decreases 3 - row,
    {
        let mut cells: Vec<String> = Vec::new();
        let mut i: usize = 0;
        while i < packages.len()
            invariant
                0 <= row < 3,
                0 <= i <= packages@.len(),
                cells@.len() == i,
                forall|j: int| 0 <= j < i ==> (#[trigger] cells@[j])@ == row_cells(packages@, row as int)[j],
            decreases packages@.len() - i,
        {
            let p = &packages[i];
            let text = if row == 0 {
                p.name.as_str()
            } else if row == 1 {
                p.version.as_str()
            } else {
                p.build.as_str()
            };
            let cell = pad_to_width(text, column_width_exec(p));
            cells.push(cell);
            i = i + 1;
        }
        proof {
            assert(texts(cells@) =~= row_cells(packages@, row as int));
        }
        let line = join_strings(&cells, " |");
        rows.push(line);
        row = row + 1;
    }
    rows
}

/// Where the status bar goes on a terminal of `cols` columns and `rows`
/// rows, with `height` rows for the status bar.
#[derive(Debug, Clone, Copy)]
pub struct StatusLayout {
    pub cols: u16,
    pub rows: u16,
    pub height: u16,
}

/// A terminal with room for the status bar, a line above it and a column.
pub open spec fn fits(l: StatusLayout) -> bool {
    l.cols >= 1 && l.height + 2 <= l.rows
}

impl StatusLayout {
    /// The screen row of a row of the status bar.
    pub fn status_row(&self, row: u16) -> (r: u16)
        requires
            fits(*self),
            row < self.height,
        ensures
            r == self.rows - self.height + row,
    {
        self.rows - self.height + row
    }

    /// The last row of the area that scrolls above the status bar.
    pub fn scroll_bottom(&self) -> (r: u16)
        requires
            fits(*self),
        ensures
            r == self.rows - self.height - 1,
    {
        self.rows - self.height - 1
    }

    /// The row the cursor is put on, above the status bar.
    pub fn cursor_row(&self) -> (r: u16)
        requires
            fits(*self),
        ensures
            r == self.rows - self.height - 2,
    {
        self.rows - self.height - 2
    }

    /// A status message cut to the width it may take: one column less
    /// than the terminal's.
    pub fn fit_message(&self, msg: &str) -> (r: String)
        requires
            fits(*self),
        ensures
            msg@.len() < self.cols ==> r@ == msg@,
            msg@.len() >= self.cols ==> r@ == msg@.take(self.cols - 1),
    {
        let max: usize = (self.cols - 1) as usize;
        let n = msg.unicode_len();
        if n <= max {
            String::from_str(msg)
        } else {
            String::from_str(msg.substring_char(0, max))
        }
    }
}

} // verus!
