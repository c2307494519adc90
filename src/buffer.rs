//! A document as a sequence of lines, a viewport onto it and a cursor in it.

use vstd::prelude::*;
use vstd::utf8::{decode_utf8, valid_utf8};

use crate::cursor::{Cursor, Sticky};
use crate::row::{concat, distance, push_char, Row};
use crate::EditError;

verus! {

/// The bytes after the last line feed.
pub open spec fn tail_line(b: Seq<u8>) -> Seq<u8>
    decreases b.len(),
{
    if b.len() == 0 || b.last() == 10u8 {
        seq![]
    } else {
        tail_line(b.drop_last()).push(b.last())
    }
}

/// A line without the carriage return that ended it, if any.
pub open spec fn strip_cr(l: Seq<u8>) -> Seq<u8> {
    if l.len() > 0 && l.last() == 13u8 {
        l.drop_last()
    } else {
        l
    }
}

/// The lines that a line feed ends, without their line ending.
pub open spec fn ended_lines(b: Seq<u8>) -> Seq<Seq<u8>>
    decreases b.len(),
{
    if b.len() == 0 {
        seq![]
    } else if b.last() == 10u8 {
        ended_lines(b.drop_last()).push(strip_cr(tail_line(b.drop_last())))
    } else {
        ended_lines(b.drop_last())
    }
}

/// The lines of a byte content: those a line feed ends, then what follows
/// the last line feed unless it is empty.
pub open spec fn byte_lines(b: Seq<u8>) -> Seq<Seq<u8>> {
    if tail_line(b).len() == 0 {
        ended_lines(b)
    } else {
        ended_lines(b).push(tail_line(b))
    }
}

/// Every line is valid UTF-8.
pub open spec fn all_valid(ls: Seq<Seq<u8>>) -> bool {
    forall|i: int| 0 <= i < ls.len() ==> valid_utf8(#[trigger] ls[i])
}

/// The texts of the lines of a document read from `b`: one empty line when
/// `b` holds none.
pub open spec fn document(b: Seq<u8>) -> Seq<Seq<char>> {
    if byte_lines(b).len() == 0 {
        seq![seq![]]
    } else {
        byte_lines(b).map_values(|l: Seq<u8>| decode_utf8(l))
    }
}

/// The stored texts of a sequence of lines.
pub open spec fn raws(rows: Seq<Row>) -> Seq<Seq<char>> {
    rows.map_values(|r: Row| r.raw@)
}

/// What a viewport row shows beyond the end of the document.
pub open spec fn filler() -> Seq<char> {
    seq!['~']
}

/// Decodes one line of bytes.
///
/// Relies on `std::str::from_utf8`: it succeeds exactly when the bytes are
/// valid UTF-8, and then yields the characters they encode.
#[verifier::external_body]
fn decode_line(bytes: &[u8]) -> (r: Option<String>)
    ensures
        r is Some <==> valid_utf8(bytes@),
        r matches Some(s) ==> s@ == decode_utf8(bytes@),
{
    std::str::from_utf8(bytes).ok().map(|s| s.to_string())
}

/// Splits byte content into lines at line feeds, dropping a carriage return
/// before a line feed.
fn split_lines(buf: &[u8]) -> (r: Vec<Vec<u8>>)
    ensures
        r@.map_values(|v: Vec<u8>| v@) == byte_lines(buf@),
{
    let mut done: Vec<Vec<u8>> = Vec::new();
    let mut cur: Vec<u8> = Vec::new();
    let mut i: usize = 0;
    while i < buf.len()
        invariant
            i <= buf@.len(),
            done@.map_values(|v: Vec<u8>| v@) == ended_lines(buf@.take(i as int)),
            cur@ == tail_line(buf@.take(i as int)),
        decreases buf@.len() - i,
    {
        let ghost pre = buf@.take(i as int);
        assert(buf@.take(i + 1).drop_last() =~= pre);
        assert(buf@.take(i + 1).last() == buf@[i as int]);
        let byte = buf[i];
        if byte == 10u8 {
            let mut line = cur;
            let len = line.len();
            if len > 0 && line[len - 1] == 13u8 {
                line.pop();
                assert(line@ =~= strip_cr(tail_line(pre)));
            }
            done.push(line);
            cur = Vec::new();
            assert(done@.map_values(|v: Vec<u8>| v@) =~= ended_lines(pre).push(strip_cr(tail_line(pre))));
        } else {
            cur.push(byte);
        }
        i = i + 1;
    }
    assert(buf@.take(buf@.len() as int) =~= buf@);
    if cur.len() > 0 {
        done.push(cur);
        assert(done@.map_values(|v: Vec<u8>| v@) =~= ended_lines(buf@).push(tail_line(buf@)));
    }
    done
}

/// The last column a cursor may rest on in a line of `len` clusters.
pub open spec fn last_index(len: nat) -> nat {
    if len == 0 {
        0
    } else {
        (len - 1) as nat
    }
}

/// The characters that Unicode gives the White_Space property.
pub open spec fn is_white_space(c: char) -> bool {
    let v = c as u32;
    (0x9 <= v <= 0xd) || v == 0x20 || v == 0x85 || v == 0xa0 || v == 0x1680 || (0x2000 <= v
        <= 0x200a) || v == 0x2028 || v == 0x2029 || v == 0x202f || v == 0x205f || v == 0x3000
}

/// A cluster made of white space alone.
pub open spec fn is_blank(g: Seq<char>) -> bool {
    forall|k: int| 0 <= k < g.len() ==> is_white_space(#[trigger] g[k])
}

/// Whether `c` is white space.
fn white_space(c: char) -> (r: bool)
    ensures
        r == is_white_space(c),
{
    let v = c as u32;
    (0x9 <= v && v <= 0xd) || v == 0x20 || v == 0x85 || v == 0xa0 || v == 0x1680 || (0x2000 <= v
        && v <= 0x200a) || v == 0x2028 || v == 0x2029 || v == 0x202f || v == 0x205f || v == 0x3000
}

/// Whether a cluster is made of white space alone.
fn blank_cluster(g: &str) -> (r: bool)
    ensures
        r == is_blank(g@),
{
    let n = g.unicode_len();
    let mut k: usize = 0;
    while k < n
        invariant
            n == g@.len(),
            k <= n,
            forall|j: int| 0 <= j < k ==> is_white_space(#[trigger] g@[j]),
        decreases n - k,
    {
        if !white_space(g.get_char(k)) {
            return false;
        }
        k = k + 1;
    }
    true
}

/// The cursor moved to another row, its column not yet fitted.
pub open spec fn on_row(c: Cursor, row: nat) -> Cursor {
    Cursor { row: row as usize, ..c }
}

/// The cursor at column `column`, remembering nothing.
pub open spec fn at_column(c: Cursor, column: nat) -> Cursor {
    Cursor { column: column as usize, sticky: Sticky::Free, ..c }
}

/// The smaller of two numbers.
pub open spec fn min(a: nat, b: nat) -> nat {
    if a <= b {
        a
    } else {
        b
    }
}

/// Index of the first cluster of `line` that is not white space alone, or 0
/// when there is none.
fn first_nonblank(line: &Row) -> (r: usize)
    requires
        line.wf(),
    ensures
        (r < line@.len() && !is_blank(line@[r as int]) && forall|j: int| 0 <= j < r ==> is_blank(#[trigger] line@[j]))
        || (r == 0 && forall|j: int| 0 <= j < line@.len() ==> is_blank(#[trigger] line@[j])),
{
    let n = line.len();
    let mut k: usize = 0;
    while k < n
        invariant
            line.wf(),
            n == line@.len(),
            k <= n,
            forall|j: int| 0 <= j < k ==> is_blank(#[trigger] line@[j]),
        decreases n - k,
    {
        if !blank_cluster(line.clusters[k].as_str()) {
            return k;
        }
        k = k + 1;
    }
    0
}

/// A document being edited: its lines, the first line shown and the cursor.
pub struct Buffer {
    contents: Vec<Row>,
    offset: usize,
    cursor: Cursor,
}

impl Buffer {
    /// The lines of the document.
    pub closed spec fn lines(&self) -> Seq<Row> {
        self.contents@
    }

    /// Index of the first line shown.
    pub closed spec fn top(&self) -> nat {
        self.offset as nat
    }

    /// The cursor, its row counted from the first line shown.
    pub closed spec fn caret(&self) -> Cursor {
        self.cursor
    }

    /// Index of the line under the cursor.
    pub open spec fn current(&self) -> int {
        self.top() + self.caret().row
    }

    /// The line under the cursor.
    pub open spec fn current_row(&self) -> Row {
        self.lines()[self.current()]
    }

    /// At least one line, every line well formed, the cursor on a line and
    /// at most one past its last cluster.
    pub open spec fn wf(&self) -> bool {
        &&& self.lines().len() >= 1
        &&& forall|i: int| 0 <= i < self.lines().len() ==> (#[trigger] self.lines()[i]).wf()
        &&& self.current() < self.lines().len()
        &&& self.caret().column <= self.current_row()@.len()
        &&& self.caret().wf()
    }

    /// Reads a document from its bytes, one line per line feed. Fails with
    /// `Malformed` when a line is not valid UTF-8.
    pub fn new(buf: &[u8]) -> (r: Result<Buffer, EditError>)
        ensures
            r is Err <==> !all_valid(byte_lines(buf@)),
            r is Err ==> r == Err::<Buffer, EditError>(EditError::Malformed),
            r matches Ok(b) ==> b.wf() && raws(b.lines()) == document(buf@) && b.top() == 0
                && b.caret() == Cursor::origin_spec(),
    {
        let lines = split_lines(buf);
        let ghost ls = byte_lines(buf@);
        let mut contents: Vec<Row> = Vec::new();
        let mut k: usize = 0;
        while k < lines.len()
            invariant
                lines@.map_values(|v: Vec<u8>| v@) == ls,
                ls == byte_lines(buf@),
                k <= ls.len(),
                contents@.len() == k,
                forall|j: int| 0 <= j < k ==> (#[trigger] contents@[j]).wf(),
                forall|j: int| 0 <= j < k ==> #[trigger] contents@[j].raw@ == decode_utf8(ls[j]),
                forall|j: int| 0 <= j < k ==> valid_utf8(#[trigger] ls[j]),
            decreases ls.len() - k,
        {
            assert(lines@[k as int]@ == ls[k as int]);
            match decode_line(lines[k].as_slice()) {
                None => {
                    assert(!valid_utf8(ls[k as int]));
                    return Err(EditError::Malformed);
                },
                Some(text) => {
                    contents.push(Row::new(text));
                },
            }
            k = k + 1;
        }
        if contents.len() == 0 {
            contents.push(Row::empty());
        }
        assert(raws(contents@) =~= document(buf@));
        Ok(Buffer { contents, offset: 0, cursor: Cursor::origin() })
    }

    /// Index of the line under the cursor.
    fn line_index(&self) -> (r: usize)
        requires
            self.wf(),
        ensures
            r == self.current(),
    {
        proof {
            assert(self.contents@.len() == self.contents.len());
        }
        self.offset + self.cursor.row
    }

    /// The line under the cursor.
    pub fn current_line(&self) -> (r: &Row)
        requires
            self.wf(),
        ensures
            *r == self.current_row(),
    {
        &self.contents[self.line_index()]
    }

    /// The `height` rows of the viewport: the renderings of the lines from
    /// the first one shown on, then the filler once the document ends.
    pub fn render_viewport(&self, height: usize) -> (r: Vec<String>)
        requires
            self.wf(),
        ensures
            r@.len() == height,
            forall|k: int|
                0 <= k < height ==> (#[trigger] r@[k])@ == (if self.top() + k < self.lines().len() {
                    self.lines()[self.top() + k].render@
                } else {
                    filler()
                }),
    {
        let mut out: Vec<String> = Vec::new();
        let mut k: usize = 0;
        while k < height
            invariant
                k <= height,
                out@.len() == k,
                forall|j: int|
                    0 <= j < k ==> (#[trigger] out@[j])@ == (if self.top() + j < self.lines().len() {
                        self.lines()[self.top() + j].render@
                    } else {
                        filler()
                    }),
            decreases height - k,
        {
            if k < self.contents.len() && self.offset < self.contents.len() - k {
                out.push(self.contents[self.offset + k].render.clone());
            } else {
                let mut tilde = String::new();
                push_char(&mut tilde, '~');
                assert(tilde@ =~= filler());
                out.push(tilde);
            }
            k = k + 1;
        }
        out
    }

    /// Sets the column, forgetting any remembered one.
    fn place(&mut self, column: usize)
        requires
            old(self).wf(),
            column <= old(self).current_row()@.len(),
        ensures
            final(self).wf(),
            final(self).lines() == old(self).lines(),
            final(self).top() == old(self).top(),
            final(self).caret() == at_column(old(self).caret(), column as nat),
    {
        self.cursor.column = column;
        self.cursor.sticky = Sticky::Free;
    }

    /// Moves right by up to `count` clusters, stopping at the last one, and
    /// forgets any remembered column. Returns the screen columns crossed.
    fn move_right_by(&mut self, count: usize) -> (d: usize)
        requires
            old(self).wf(),
        ensures
            final(self).wf(),
            final(self).lines() == old(self).lines(),
            final(self).top() == old(self).top(),
            final(self).caret() == at_column(
                old(self).caret(),
                if old(self).caret().column >= last_index(old(self).current_row()@.len()) {
                    old(self).caret().column as nat
                } else {
                    min(
                        (old(self).caret().column + count) as nat,
                        last_index(old(self).current_row()@.len()),
                    )
                },
            ),
            d == distance(
                old(self).current_row()@,
                old(self).caret().column as int,
                final(self).caret().column as int,
            ),
    {
        let line = self.current_line();
        let len = line.len();
        let last = if len == 0 {
            0
        } else {
            len - 1
        };
        let col = self.cursor.column;
        let target = if col >= last {
            col
        } else if count >= last - col {
            last
        } else {
            col + count
        };
        let d = line.visual_distance(col, target);
        self.place(target);
        d
    }

    /// Moves left by up to `count` clusters, stopping at the first one, and
    /// forgets any remembered column. Returns the screen columns crossed.
    fn move_left_by(&mut self, count: usize) -> (d: usize)
        requires
            old(self).wf(),
        ensures
            final(self).wf(),
            final(self).lines() == old(self).lines(),
            final(self).top() == old(self).top(),
            final(self).caret() == at_column(
                old(self).caret(),
                if old(self).caret().column >= count {
                    (old(self).caret().column - count) as nat
                } else {
                    0
                },
            ),
            d == distance(
                old(self).current_row()@,
                old(self).caret().column as int,
                final(self).caret().column as int,
            ),
    {
        let col = self.cursor.column;
        let target = if col >= count {
            col - count
        } else {
            0
        };
        let d = self.current_line().visual_distance(col, target);
        self.place(target);
        d
    }

    /// Moves right by up to `count` clusters, stopping at the last one, and
    /// forgets any remembered column. Returns the screen columns crossed.
    pub fn move_right(&mut self, count: u16) -> (d: usize)
        requires
            old(self).wf(),
        ensures
            final(self).wf(),
            final(self).lines() == old(self).lines(),
            final(self).top() == old(self).top(),
            final(self).caret() == at_column(
                old(self).caret(),
                if old(self).caret().column >= last_index(old(self).current_row()@.len()) {
                    old(self).caret().column as nat
                } else {
                    min(
                        (old(self).caret().column + count) as nat,
                        last_index(old(self).current_row()@.len()),
                    )
                },
            ),
            d == distance(
                old(self).current_row()@,
                old(self).caret().column as int,
                final(self).caret().column as int,
            ),
    {
        self.move_right_by(count as usize)
    }

    /// Moves left by up to `count` clusters, stopping at the first one, and
    /// forgets any remembered column. Returns the screen columns crossed.
    pub fn move_left(&mut self, count: u16) -> (d: usize)
        requires
            old(self).wf(),
        ensures
            final(self).wf(),
            final(self).lines() == old(self).lines(),
            final(self).top() == old(self).top(),
            final(self).caret() == at_column(
                old(self).caret(),
                if old(self).caret().column >= count {
                    (old(self).caret().column - count) as nat
                } else {
                    0
                },
            ),
            d == distance(
                old(self).current_row()@,
                old(self).caret().column as int,
                final(self).caret().column as int,
            ),
    {
        self.move_left_by(count as usize)
    }

    /// Moves right by up to `count` clusters, as far as one past the last
    /// one, and forgets any remembered column; nothing happens on an empty
    /// line. Returns the screen columns crossed.
    pub fn move_right_forced(&mut self, count: u16) -> (d: usize)
        requires
            old(self).wf(),
        ensures
            final(self).wf(),
            old(self).current_row()@.len() == 0 ==> *final(self) == *old(self) && d == 0,
            old(self).current_row()@.len() > 0 ==> ({
                &&& final(self).lines() == old(self).lines()
                &&& final(self).top() == old(self).top()
                &&& final(self).caret() == at_column(
                    old(self).caret(),
                    min((old(self).caret().column + count) as nat, old(self).current_row()@.len()),
                )
                &&& d == distance(
                    old(self).current_row()@,
                    old(self).caret().column as int,
                    final(self).caret().column as int,
                )
            }),
    {
        let line = self.current_line();
        let len = line.len();
        if len == 0 {
            return 0;
        }
        let col = self.cursor.column;
        let target = if count as usize >= len - col {
            len
        } else {
            col + count as usize
        };
        let d = line.visual_distance(col, target);
        self.place(target);
        d
    }

    /// Moves to the last cluster of the line. Returns the screen columns
    /// crossed.
    pub fn move_end_of_line(&mut self) -> (d: usize)
        requires
            old(self).wf(),
        ensures
            final(self).wf(),
            final(self).lines() == old(self).lines(),
            final(self).top() == old(self).top(),
            final(self).caret() == at_column(
                old(self).caret(),
                if old(self).caret().column >= last_index(old(self).current_row()@.len()) {
                    old(self).caret().column as nat
                } else {
                    last_index(old(self).current_row()@.len())
                },
            ),
            d == distance(
                old(self).current_row()@,
                old(self).caret().column as int,
                final(self).caret().column as int,
            ),
    {
        let len = self.current_line().len();
        self.move_right_by(len)
    }

    /// Moves to the first cluster of the line. Returns the screen columns
    /// crossed.
    pub fn move_start_of_line(&mut self) -> (d: usize)
        requires
            old(self).wf(),
        ensures
            final(self).wf(),
            final(self).lines() == old(self).lines(),
            final(self).top() == old(self).top(),
            final(self).caret() == at_column(old(self).caret(), 0),
            d == distance(old(self).current_row()@, old(self).caret().column as int, 0),
    {
        let len = self.current_line().len();
        self.move_left_by(len)
    }

    /// Moves to the first cluster that is not white space alone, or to the
    /// first cluster when there is none.
    pub fn move_to_first_char(&mut self)
        requires
            old(self).wf(),
        ensures
            final(self).wf(),
            final(self).lines() == old(self).lines(),
            final(self).top() == old(self).top(),
            final(self).caret().row == old(self).caret().row,
            final(self).caret().sticky == Sticky::Free,
            ({
                let gs = old(self).current_row()@;
                let c = final(self).caret().column as int;
                (c < gs.len() && !is_blank(gs[c]) && forall|j: int| 0 <= j < c ==> is_blank(#[trigger] gs[j]))
                || (c == 0 && forall|j: int| 0 <= j < gs.len() ==> is_blank(#[trigger] gs[j]))
            }),
    {
        let k = first_nonblank(self.current_line());
        self.place(k);
    }

    /// Moves down by up to `count` lines, stopping at the last one: the
    /// cursor's row goes down while it stays within `screen_lines` rows,
    /// else the viewport scrolls. Then the column is fitted to the new line.
    pub fn move_down(&mut self, count: u16, screen_lines: usize)
        requires
            old(self).wf(),
        ensures
            final(self).wf(),
            final(self).lines() == old(self).lines(),
            old(self).current() + 1 >= old(self).lines().len() ==> *final(self) == *old(self),
            old(self).current() + 1 < old(self).lines().len() ==> ({
                let k = min(count as nat, (old(self).lines().len() - 1 - old(self).current()) as nat);
                let moved = old(self).caret().row + k < screen_lines;
                &&& final(self).current() == old(self).current() + k
                &&& final(self).top() == (if moved { old(self).top() } else { old(self).top() + k })
                &&& final(self).caret() == on_row(
                    old(self).caret(),
                    if moved { (old(self).caret().row + k) as nat } else { old(self).caret().row as nat },
                ).fitted(last_index(final(self).current_row()@.len()))
            }),
    {
        let idx = self.line_index();
        let n = self.contents.len();
        if idx + 1 >= n {
            return;
        }
        let room = n - 1 - idx;
        let k = if (count as usize) < room {
            count as usize
        } else {
            room
        };
        if self.cursor.row < screen_lines && k < screen_lines - self.cursor.row {
            self.cursor.row = self.cursor.row + k;
        } else {
            self.offset = self.offset + k;
        }
        let len = self.contents[idx + k].len();
        let last = if len == 0 {
            0
        } else {
            len - 1
        };
        self.cursor.preserve_x(last);
    }

    /// Moves up by up to `count` lines, stopping at the first one: the
    /// cursor's row goes up while it can, else the viewport scrolls. Then the
    /// column is fitted to the new line.
    pub fn move_up(&mut self, count: u16)
        requires
            old(self).wf(),
        ensures
            final(self).wf(),
            final(self).lines() == old(self).lines(),
            old(self).current() == 0 ==> *final(self) == *old(self),
            old(self).current() > 0 ==> ({
                let k = min(count as nat, old(self).current() as nat);
                let row = old(self).caret().row as nat;
                let top = old(self).top();
                &&& final(self).current() == old(self).current() - k
                &&& final(self).top() == (if row >= k { top } else if top >= k { (top - k) as nat } else { 0 })
                &&& final(self).caret() == on_row(
                    old(self).caret(),
                    if row >= k { (row - k) as nat } else if top >= k { row } else { (row + top - k) as nat },
                ).fitted(last_index(final(self).current_row()@.len()))
            }),
    {
        let idx = self.line_index();
        if idx == 0 {
            return;
        }
        let k = if (count as usize) < idx {
            count as usize
        } else {
            idx
        };
        if self.cursor.row >= k {
            self.cursor.row = self.cursor.row - k;
        } else if self.offset >= k {
            self.offset = self.offset - k;
        } else {
            self.cursor.row = self.cursor.row + self.offset - k;
            self.offset = 0;
        }
        let len = self.contents[idx - k].len();
        let last = if len == 0 {
            0
        } else {
            len - 1
        };
        self.cursor.preserve_x(last);
    }

    /// Inserts `c` at the cursor, then moves right by one, as far as one past
    /// the last cluster.
    pub fn insert_char(&mut self, c: char)
        requires
            old(self).wf(),
        ensures
            final(self).wf(),
            final(self).top() == old(self).top(),
            final(self).lines().len() == old(self).lines().len(),
            forall|j: int|
                0 <= j < old(self).lines().len() && j != old(self).current() ==> final(self).lines()[j]
                    == old(self).lines()[j],
            final(self).current_row().raw@ == concat(
                old(self).current_row()@.insert(old(self).caret().column as int, seq![c]),
            ),
            final(self).caret() == at_column(
                old(self).caret(),
                min((old(self).caret().column + 1) as nat, final(self).current_row()@.len()),
            ),
    {
        let idx = self.line_index();
        let col = self.cursor.column;
        let mut row = self.contents.remove(idx);
        row.insert_char(col, c);
        self.contents.insert(idx, row);
        let len = self.contents[idx].len();
        let target = if col < len {
            col + 1
        } else {
            len
        };
        self.cursor.column = target;
        self.cursor.sticky = Sticky::Free;
        proof {
            assert forall|j: int| 0 <= j < self.lines().len() implies (#[trigger] self.lines()[j]).wf() by {
                if j != idx {
                    assert(self.lines()[j] == old(self).lines()[j]);
                }
            }
        }
    }

    /// Removes the cluster under the cursor; when the cursor then lies past
    /// the line's last cluster it moves onto it. Fails with `EmptyLine`,
    /// changing nothing, on an empty line, and with `OutOfBounds`, removing
    /// nothing, when the cursor is one past the last cluster.
    pub fn remove_char(&mut self) -> (r: Result<(), EditError>)
        requires
            old(self).wf(),
        ensures
            final(self).wf(),
            old(self).current_row()@.len() == 0 ==> r == Err::<(), EditError>(EditError::EmptyLine)
                && *final(self) == *old(self),
            old(self).current_row()@.len() > 0 ==> ({
                let col = old(self).caret().column;
                let len = final(self).current_row()@.len();
                &&& r == (if col < old(self).current_row()@.len() {
                    Ok::<(), EditError>(())
                } else {
                    Err::<(), EditError>(EditError::OutOfBounds)
                })
                &&& final(self).top() == old(self).top()
                &&& final(self).lines().len() == old(self).lines().len()
                &&& forall|j: int|
                    0 <= j < old(self).lines().len() && j != old(self).current() ==> final(self).lines()[j]
                        == old(self).lines()[j]
                &&& r is Ok ==> final(self).current_row().raw@ == concat(
                    old(self).current_row()@.remove(col as int),
                )
                &&& r is Err ==> final(self).current_row() == old(self).current_row()
                &&& final(self).caret() == (if col >= len {
                    at_column(old(self).caret(), last_index(len))
                } else {
                    old(self).caret()
                })
            }),
    {
        let idx = self.line_index();
        if self.contents[idx].is_empty() {
            return Err(EditError::EmptyLine);
        }
        let col = self.cursor.column;
        let mut row = self.contents.remove(idx);
        let r = row.remove_char(col);
        self.contents.insert(idx, row);
        let len = self.contents[idx].len();
        if col >= len {
            let last = if len == 0 {
                0
            } else {
                len - 1
            };
            self.cursor.column = last;
            self.cursor.sticky = Sticky::Free;
        }
        proof {
            assert forall|j: int| 0 <= j < self.lines().len() implies (#[trigger] self.lines()[j]).wf() by {
                if j != idx {
                    assert(self.lines()[j] == old(self).lines()[j]);
                }
            }
        }
        r
    }

    /// Removes the cluster left of the cursor and moves onto its place;
    /// nothing happens at the first column.
    pub fn remove_char_before_cursor(&mut self)
        requires
            old(self).wf(),
        ensures
            final(self).wf(),
            old(self).caret().column == 0 ==> *final(self) == *old(self),
            old(self).caret().column > 0 ==> ({
                let col = (old(self).caret().column - 1) as nat;
                &&& final(self).top() == old(self).top()
                &&& final(self).lines().len() == old(self).lines().len()
                &&& forall|j: int|
                    0 <= j < old(self).lines().len() && j != old(self).current() ==> final(self).lines()[j]
                        == old(self).lines()[j]
                &&& final(self).current_row().raw@ == concat(
                    old(self).current_row()@.remove(col as int),
                )
                &&& final(self).caret() == at_column(
                    old(self).caret(),
                    min(col, final(self).current_row()@.len()),
                )
            }),
    {
        let col = self.cursor.column;
        if col == 0 {
            return;
        }
        let idx = self.line_index();
        let mut row = self.contents.remove(idx);
        let removed = row.remove_char(col - 1);
        assert(removed is Ok);
        self.contents.insert(idx, row);
        let len = self.contents[idx].len();
        self.cursor.column = if col - 1 < len {
            col - 1
        } else {
            len
        };
        self.cursor.sticky = Sticky::Free;
        proof {
            assert forall|j: int| 0 <= j < self.lines().len() implies (#[trigger] self.lines()[j]).wf() by {
                if j != idx {
                    assert(self.lines()[j] == old(self).lines()[j]);
                }
            }
        }
    }

    /// Opens an empty line below the cursor's line and moves down onto it,
    /// as `move_down` does within `screen_lines` rows.
    pub fn new_line_after_cursor(&mut self, screen_lines: usize)
        requires
            old(self).wf(),
        ensures
            final(self).wf(),
            raws(final(self).lines()) == raws(old(self).lines()).insert(old(self).current() + 1, seq![]),
            final(self).current() == old(self).current() + 1,
            final(self).caret().column == 0,
            ({
                let moved = old(self).caret().row + 1 < screen_lines;
                &&& final(self).top() == (if moved { old(self).top() } else { old(self).top() + 1 })
                &&& final(self).caret() == on_row(
                    old(self).caret(),
                    if moved { (old(self).caret().row + 1) as nat } else { old(self).caret().row as nat },
                ).fitted(0)
            }),
    {
        let idx = self.line_index();
        proof {
            assert(self.contents@.len() == self.contents.len());
        }
        self.contents.insert(idx + 1, Row::empty());
        proof {
            assert(raws(self.lines()) =~= raws(old(self).lines()).insert(old(self).current() + 1, seq![]));
            assert forall|j: int| 0 <= j < self.lines().len() implies (#[trigger] self.lines()[j]).wf() by {
                if j <= idx {
                    assert(self.lines()[j] == old(self).lines()[j]);
                } else if j > idx + 1 {
                    assert(self.lines()[j] == old(self).lines()[j - 1]);
                }
            }
        }
        self.move_down(1, screen_lines);
    }

    /// Moves to the start of the line, then opens an empty line in its place,
    /// pushing it down; the cursor stays on the new line.
    pub fn new_line_before_cursor(&mut self)
        requires
            old(self).wf(),
        ensures
            final(self).wf(),
            raws(final(self).lines()) == raws(old(self).lines()).insert(old(self).current(), seq![]),
            final(self).top() == old(self).top(),
            final(self).caret() == at_column(old(self).caret(), 0),
    {
        self.move_start_of_line();
        let idx = self.line_index();
        self.contents.insert(idx, Row::empty());
        proof {
            assert(raws(self.lines()) =~= raws(old(self).lines()).insert(old(self).current(), seq![]));
            assert forall|j: int| 0 <= j < self.lines().len() implies (#[trigger] self.lines()[j]).wf() by {
                if j < idx {
                    assert(self.lines()[j] == old(self).lines()[j]);
                } else if j > idx {
                    assert(self.lines()[j] == old(self).lines()[j - 1]);
                }
            }
        }
    }

    /// The cursor.
    pub fn cursor(&self) -> (r: Cursor)
        ensures
            r == self.caret(),
    {
        self.cursor
    }

    /// Index of the first line shown.
    pub fn offset(&self) -> (r: usize)
        ensures
            r == self.top(),
    {
        self.offset
    }

    /// Number of lines in the document.
    pub fn line_count(&self) -> (r: usize)
        ensures
            r == self.lines().len(),
    {
        self.contents.len()
    }

    /// Line `index` of the document, if there is one.
    pub fn line(&self, index: usize) -> (r: Option<&Row>)
        ensures
            index < self.lines().len() ==> r == Some(&self.lines()[index as int]),
            index >= self.lines().len() ==> r is None,
    {
        if index < self.contents.len() {
            Some(&self.contents[index])
        } else {
            None
        }
    }

    /// Screen column of the cursor: the screen columns from the start of its
    /// line to the cluster under it.
    pub fn visual_column(&self) -> (r: usize)
        requires
            self.wf(),
        ensures
            r == distance(self.current_row()@, 0, self.caret().column as int),
    {
        self.current_line().visual_distance(0, self.cursor.column)
    }
}

} // verus!
