use vstd::prelude::*;

use super::{Grid, GridError};

verus! {

/// The byte that ends a line of grid text.
pub const NEWLINE: u8 = 10;

/// Length of the first line of `s`: the position of its first newline, or its whole length.
pub open spec fn line_len(s: Seq<u8>) -> nat
    decreases s.len(),
{
    if s.len() == 0 || s[0] == NEWLINE {
        0
    } else {
        1 + line_len(s.drop_first())
    }
}

/// The lines of `s`, split at every newline; a text with `n` newlines has `n + 1` lines.
pub open spec fn split_lines(s: Seq<u8>) -> Seq<Seq<u8>>
    decreases s.len(),
{
    let e = line_len(s);
    if e < s.len() {
        seq![s.take(e as int)] + split_lines(s.skip(e + 1 as int))
    } else {
        seq![s]
    }
}

/// `s` with every newline removed.
pub open spec fn without_newlines(s: Seq<u8>) -> Seq<u8>
    decreases s.len(),
{
    if s.len() == 0 {
        s
    } else if s.last() == NEWLINE {
        without_newlines(s.drop_last())
    } else {
        without_newlines(s.drop_last()).push(s.last())
    }
}

/// Every line after the first is as long as the first, except that a last line may be empty.
pub open spec fn grid_text_ok(s: Seq<u8>) -> bool {
    let lines = split_lines(s);
    forall|i: int|
        1 <= i < lines.len() ==> #[trigger] lines[i].len() == lines[0].len() || (i == lines.len()
            - 1 && lines[i].len() == 0)
}

/// The number of rows of the grid that a valid text describes: all its cells over its width,
/// and none for a grid of width zero.
pub open spec fn text_height(s: Seq<u8>) -> nat {
    let w = line_len(s);
    if w == 0 {
        0
    } else {
        without_newlines(s).len() / w
    }
}

/// The first `h` rows of width `w` of `cells`, each followed by a newline.
pub open spec fn rows_text(cells: Seq<u8>, w: nat, h: nat) -> Seq<u8>
    decreases h,
{
    if h == 0 {
        Seq::empty()
    } else {
        cells.take(w as int) + seq![NEWLINE] + rows_text(cells.skip(w as int), w, (h - 1) as nat)
    }
}

/// Bytes read as characters, one for one.
pub open spec fn ascii_text(b: Seq<u8>) -> Seq<char> {
    b.map_values(|x: u8| x as char)
}

/// A byte in the ASCII range.
pub open spec fn is_ascii_byte(b: u8) -> bool {
    b < 128
}

proof fn lemma_line_len(s: Seq<u8>)
    ensures
        line_len(s) <= s.len(),
        line_len(s) < s.len() ==> s[line_len(s) as int] == NEWLINE,
        forall|i: int| 0 <= i < line_len(s) ==> s[i] != NEWLINE,
    decreases s.len(),
{
    if s.len() > 0 && s[0] != NEWLINE {
        lemma_line_len(s.drop_first());
        assert forall|i: int| 0 <= i < line_len(s) implies s[i] != NEWLINE by {
            if i > 0 {
                assert(s[i] == s.drop_first()[i - 1]);
            }
        }
    }
}

proof fn lemma_row_bounds(w: int, h: int, row: int)
    requires
        0 <= row < h,
        0 <= w,
    ensures
        row * w + w <= w * h,
        (row + 1) * w == row * w + w,
        0 <= row * w,
{
    assert(row * w + w <= w * h) by (nonlinear_arith)
        requires
            0 <= row < h,
            0 <= w,
    ;
    assert((row + 1) * w == row * w + w) by (nonlinear_arith);
    assert(0 <= row * w) by (nonlinear_arith)
        requires
            0 <= row,
            0 <= w,
    ;
}

proof fn lemma_without_newlines_add(a: Seq<u8>, b: Seq<u8>)
    ensures
        without_newlines(a + b) == without_newlines(a) + without_newlines(b),
    decreases b.len(),
{
    if b.len() == 0 {
        assert(a + b =~= a);
        assert(without_newlines(a) + without_newlines(b) =~= without_newlines(a));
    } else {
        assert((a + b).drop_last() =~= a + b.drop_last());
        lemma_without_newlines_add(a, b.drop_last());
        if b.last() != NEWLINE {
            assert(without_newlines(a) + without_newlines(b) =~= (without_newlines(a)
                + without_newlines(b.drop_last())).push(b.last()));
        }
    }
}

proof fn lemma_without_newlines_line(s: Seq<u8>)
    requires
        forall|i: int| 0 <= i < s.len() ==> s[i] != NEWLINE,
    ensures
        without_newlines(s) == s,
    decreases s.len(),
{
    if s.len() > 0 {
        lemma_without_newlines_line(s.drop_last());
        assert(s.drop_last().push(s.last()) =~= s);
    }
}

/// Position of the first newline at or after `start`, or the length of `s` if there is none.
fn find_line_end(s: &[u8], start: usize) -> (e: usize)
    requires
        start <= s@.len(),
    ensures
        e == start + line_len(s@.skip(start as int)),
        e <= s@.len(),
        forall|i: int| start <= i < e ==> s@[i] != NEWLINE,
        e < s@.len() ==> s@[e as int] == NEWLINE,
{
    let mut j = start;
    while j < s.len() && s[j] != NEWLINE
        invariant
            start <= j <= s@.len(),
            line_len(s@.skip(start as int)) == (j - start) + line_len(s@.skip(j as int)),
            forall|i: int| start <= i < j ==> s@[i] != NEWLINE,
        decreases s@.len() - j,
    {
        assert(s@.skip(j as int).drop_first() =~= s@.skip(j + 1));
        j += 1;
    }
    j
}

/// Appends `s[start..end]`, which holds no newline, to `values`.
fn push_line(values: &mut Vec<u8>, s: &[u8], start: usize, end: usize)
    requires
        start <= end <= s@.len(),
        forall|i: int| start <= i < end ==> s@[i] != NEWLINE,
        old(values)@ == without_newlines(s@.take(start as int)),
    ensures
        final(values)@ == without_newlines(s@.take(end as int)),
        final(values)@.len() == old(values)@.len() + (end - start),
{
    let mut j = start;
    while j < end
        invariant
            start <= j <= end <= s@.len(),
            forall|i: int| start <= i < end ==> s@[i] != NEWLINE,
            values@ == without_newlines(s@.take(j as int)),
            values@.len() == old(values)@.len() + (j - start),
        decreases end - j,
    {
        assert(s@.take(j + 1).drop_last() =~= s@.take(j as int));
        values.push(s[j]);
        j += 1;
    }
}

/// Relies on `String::push`: appends `c` at the end of `s`.
#[verifier::external_body]
fn push_char(s: &mut String, c: char)
    ensures
        final(s)@ == old(s)@.push(c),
{
    s.push(c)
}

impl Grid<u8> {
    /// Interprets the values of the grid as ASCII and formats the grid to a [`String`].
    ///
    /// Each row is followed by a newline character (`'\n'`). Fails with
    /// [`GridError::InvalidEncoding`] if a cell holds a byte outside the ASCII range.
    pub fn format_ascii(&self) -> (r: Result<String, GridError>)
        requires
            self.wf(),
        ensures
            match r {
                Ok(t) => {
                    &&& forall|i: int| 0 <= i < self.cells().len() ==> is_ascii_byte(#[trigger] self.cells()[i])
                    &&& t@ == ascii_text(rows_text(self.cells(), self.spec_width(), self.spec_height()))
                },
                Err(e) => {
                    &&& exists|i: int| 0 <= i < self.cells().len() && !is_ascii_byte(#[trigger] self.cells()[i])
                    &&& e == GridError::InvalidEncoding
                },
            },
    {
        let n = self.values.len();
        let mut k: usize = 0;
        while k < n
            invariant
                n == self.cells().len(),
                k <= n,
                forall|i: int| 0 <= i < k ==> is_ascii_byte(#[trigger] self.cells()[i]),
            decreases n - k,
        {
            if self.values[k] >= 128 {
                return Err(GridError::InvalidEncoding);
            }
            k += 1;
        }
        let w = self.width;
        let h = self.height;
        let ghost cells = self.cells();
        let ghost total = rows_text(cells, w as nat, h as nat);
        let ghost mut done: Seq<u8> = Seq::empty();
        let mut formatted = String::new();
        let mut row: usize = 0;
        proof {
            assert(cells.skip(0) =~= cells);
            assert(done + total =~= total);
        }
        while row < h
            invariant
                self.wf(),
                cells == self.cells(),
                w == self.spec_width(),
                h == self.spec_height(),
                row <= h,
                total == rows_text(cells, w as nat, h as nat),
                done + rows_text(cells.skip(row * w), w as nat, (h - row) as nat) == total,
                formatted@ == ascii_text(done),
            decreases h - row,
        {
            proof {
                lemma_row_bounds(w as int, h as int, row as int);
            }
            let base = row * w;
            let ghost before = done;
            let mut x: usize = 0;
            while x < w
                invariant
                    self.wf(),
                    cells == self.cells(),
                    w == self.spec_width(),
                    base + w <= cells.len(),
                    x <= w,
                    done == before + cells.subrange(base as int, base + x),
                    formatted@ == ascii_text(done),
                decreases w - x,
            {
                let b = self.values[base + x];
                push_char(&mut formatted, b as char);
                proof {
                    assert(cells.subrange(base as int, base + x + 1) =~= cells.subrange(base as int, base + x).push(b));
                    done = done.push(b);
                    assert(ascii_text(done) =~= ascii_text(before + cells.subrange(base as int, base + x)).push(b as char));
                }
                x += 1;
            }
            push_char(&mut formatted, '\n');
            proof {
                let rest = cells.skip(base as int);
                assert(rest.take(w as int) =~= cells.subrange(base as int, base + w));
                assert(rest.skip(w as int) =~= cells.skip((row + 1) * w));
                let old_done = done;
                done = done.push(NEWLINE);
                assert(ascii_text(done) =~= ascii_text(old_done).push('\n'));
                assert(done + rows_text(cells.skip((row + 1) * w), w as nat, (h - row - 1) as nat)
                    =~= before + rows_text(rest, w as nat, (h - row) as nat));
            }
            row += 1;
        }
        proof {
            assert(done =~= total);
        }
        Ok(formatted)
    }

    /// Parses an ASCII grid.
    ///
    /// Lines are separated by newline characters (`'\n'`) and all lines must be of the same
    /// length; a single empty line at the very end (a final newline) is ignored. Empty input
    /// gives the empty grid.
    pub fn parse(grid: &[u8]) -> (r: Result<Grid<u8>, GridError>)
        ensures
            match r {
                Ok(g) => {
                    &&& grid_text_ok(grid@)
                    &&& g.wf()
                    &&& g.spec_width() == line_len(grid@)
                    &&& g.spec_height() == text_height(grid@)
                    &&& g.cells() == without_newlines(grid@)
                },
                Err(e) => !grid_text_ok(grid@) && e == GridError::InvalidGrid,
            },
    {
        let ghost s = grid@;
        let ghost lines = split_lines(s);
        let n = grid.len();
        if n == 0 {
            proof {
                assert(without_newlines(s) =~= s);
            }
            return Ok(Self::empty());
        }
        let width = find_line_end(grid, 0);
        let mut values: Vec<u8> = Vec::new();
        proof {
            assert(s.skip(0) =~= s);
            assert(s.take(0) =~= Seq::<u8>::empty());
        }
        push_line(&mut values, grid, 0, width);
        let mut end = width;
        let ghost mut rows: int = 1;
        proof {
            assert(lines[0] =~= s.take(width as int));
            if width < n {
                assert(lines.skip(1) =~= split_lines(s.skip(width + 1)));
            } else {
                assert(lines.skip(1) =~= Seq::<Seq<u8>>::empty());
                assert(s.take(n as int) =~= s);
            }
        }
        while end < n
            invariant
                n == s.len(),
                s == grid@,
                lines == split_lines(s),
                width == line_len(s),
                lines[0].len() == width,
                1 <= rows <= lines.len(),
                width <= end <= n,
                end < n ==> s[end as int] == NEWLINE,
                lines.skip(rows) == (if end < n {
                    split_lines(s.skip(end + 1))
                } else {
                    Seq::<Seq<u8>>::empty()
                }),
                forall|i: int| 1 <= i < rows ==> #[trigger] lines[i].len() == width,
                values@ == without_newlines(s.take(end as int)),
                values@.len() == rows * width,
                end == n ==> rows == lines.len() && values@ == without_newlines(s),
            ensures
                grid_text_ok(s),
                values@ == without_newlines(s),
                values@.len() == rows * width,
            decreases n - end,
        {
            let start = end + 1;
            proof {
                assert(s.take(start as int).drop_last() =~= s.take(end as int));
                assert(without_newlines(s.take(start as int)) == without_newlines(
                    s.take(end as int),
                ));
            }
            let e = find_line_end(grid, start);
            let ghost rest = s.skip(start as int);
            proof {
                lemma_line_len(rest);
                assert(split_lines(rest).len() >= 1);
                assert(lines.skip(rows).len() >= 1);
                assert(lines[rows] == lines.skip(rows)[0]);
                if e < n {
                    assert(rest.skip(e - start + 1) =~= s.skip(e + 1));
                    assert(split_lines(s.skip(e + 1)).len() >= 1);
                    assert(lines[rows] =~= s.subrange(start as int, e as int));
                } else {
                    assert(lines[rows] =~= s.subrange(start as int, e as int));
                }
            }
            if e - start != width {
                if e == start && e == n {
                    proof {
                        assert(lines.skip(rows).len() == 1);
                        assert(s.take(n as int) =~= s);
                        assert forall|i: int| 1 <= i < lines.len() implies #[trigger] lines[i].len()
                            == lines[0].len() || (i == lines.len() - 1 && lines[i].len() == 0) by {
                            if i >= rows {
                                assert(i == rows);
                            }
                        }
                    }
                    break;
                }
                proof {
                    if e < n {
                        assert(lines.skip(rows).len() >= 2);
                    }
                    assert(!(lines[rows].len() == lines[0].len() || (rows == lines.len() - 1
                        && lines[rows].len() == 0)));
                }
                return Err(GridError::InvalidGrid);
            }
            push_line(&mut values, grid, start, e);
            proof {
                assert(lines.skip(rows + 1) =~= lines.skip(rows).drop_first());
                if e == n {
                    assert(lines.skip(rows).len() == 1);
                    assert(s.take(n as int) =~= s);
                }
                assert(values@.len() == (rows + 1) * width) by (nonlinear_arith)
                    requires
                        values@.len() == rows * width + width,
                ;
                rows = rows + 1;
            }
            end = e;
        }
        let len = values.len();
        let height = if width == 0 {
            0
        } else {
            len / width
        };
        proof {
            if width > 0 {
                assert(len as int / width as int == rows) by (nonlinear_arith)
                    requires
                        len == rows * width,
                        width > 0,
                ;
                assert(len == width * height) by (nonlinear_arith)
                    requires
                        len == rows * width,
                        height == rows,
                ;
            }
        }
        Ok(Grid { values, width, height })
    }
}

} // verus!

verus! {

/// `s` ending in exactly the newline that it has, or with one added if it ends otherwise;
/// the empty text stays empty.
pub open spec fn with_final_newline(s: Seq<u8>) -> Seq<u8> {
    if s.len() == 0 || s.last() == NEWLINE {
        s
    } else {
        s.push(NEWLINE)
    }
}

proof fn lemma_split_lines_nonempty(s: Seq<u8>)
    ensures
        split_lines(s).len() >= 1,
{
}

proof fn lemma_without_newlines_ascii(s: Seq<u8>)
    requires
        forall|i: int| 0 <= i < s.len() ==> is_ascii_byte(#[trigger] s[i]),
    ensures
        forall|i: int|
            0 <= i < without_newlines(s).len() ==> is_ascii_byte(#[trigger] without_newlines(s)[i]),
    decreases s.len(),
{
    if s.len() > 0 {
        let d = s.drop_last();
        assert forall|i: int| 0 <= i < d.len() implies is_ascii_byte(#[trigger] d[i]) by {
            assert(d[i] == s[i]);
        }
        lemma_without_newlines_ascii(d);
        if s.last() != NEWLINE {
            let r = without_newlines(d).push(s.last());
            assert forall|i: int| 0 <= i < r.len() implies is_ascii_byte(#[trigger] r[i]) by {
                if i < without_newlines(d).len() {
                    assert(r[i] == without_newlines(d)[i]);
                }
            }
        }
    }
}

/// A text whose lines all have width `w > 0`, but for an empty last one, holds `k` rows of
/// width `w`, and formatting those rows gives the text back with a final newline.
proof fn lemma_rows_of_text(t: Seq<u8>, w: nat) -> (k: nat)
    requires
        w > 0,
        forall|i: int|
            0 <= i < split_lines(t).len() ==> #[trigger] split_lines(t)[i].len() == w || (i
                == split_lines(t).len() - 1 && split_lines(t)[i].len() == 0),
    ensures
        without_newlines(t).len() == k * w,
        rows_text(without_newlines(t), w, k) == with_final_newline(t),
    decreases t.len(),
{
    let lines = split_lines(t);
    let e = line_len(t);
    lemma_line_len(t);
    if t.len() == 0 {
        0
    } else if e == t.len() {
        assert(lines[0].len() == w);
        lemma_without_newlines_line(t);
        let rows = rows_text(t, w, 1);
        assert(t.take(w as int) =~= t);
        assert(rows_text(t.skip(w as int), w, 0) =~= Seq::<u8>::empty());
        assert(rows =~= t.push(NEWLINE));
        1
    } else {
        let u = t.skip(e + 1 as int);
        let tail = split_lines(u);
        lemma_split_lines_nonempty(u);
        assert(lines.len() == 1 + tail.len());
        assert(lines[0].len() == w);
        assert forall|i: int|
            0 <= i < tail.len() implies #[trigger] tail[i].len() == w || (i == tail.len() - 1
                && tail[i].len() == 0) by {
            assert(tail[i] == lines[i + 1]);
        }
        let k1 = lemma_rows_of_text(u, w);
        let line = t.take(e as int);
        assert(t =~= line + seq![NEWLINE] + u);
        lemma_without_newlines_line(line);
        lemma_without_newlines_add(line + seq![NEWLINE], u);
        lemma_without_newlines_add(line, seq![NEWLINE]);
        assert(seq![NEWLINE].drop_last() =~= Seq::<u8>::empty());
        assert(without_newlines(Seq::<u8>::empty()) =~= Seq::<u8>::empty());
        assert(seq![NEWLINE].last() == NEWLINE);
        assert(without_newlines(seq![NEWLINE]) =~= Seq::<u8>::empty());
        let c = without_newlines(t);
        assert(c =~= line + without_newlines(u));
        assert(c.take(w as int) =~= line);
        assert(c.skip(w as int) =~= without_newlines(u));
        assert((k1 + 1) * w == k1 * w + w) by (nonlinear_arith);
        if u.len() == 0 {
            assert(with_final_newline(t) =~= line + seq![NEWLINE]);
        } else {
            assert(t.last() == u.last());
            assert(with_final_newline(t) =~= line + seq![NEWLINE] + with_final_newline(u));
        }
        assert(rows_text(c, w, k1 + 1) =~= line + seq![NEWLINE] + with_final_newline(u));
        k1 + 1
    }
}

/// Formatting the grid parsed from an ASCII text with lines of one non-zero width gives the
/// text back, ending in exactly one newline: the cells are ASCII, so formatting succeeds, and
/// the rows it writes are the lines of the text.
pub proof fn lemma_format_parse_round_trip(s: Seq<u8>)
    requires
        grid_text_ok(s),
        forall|i: int| 0 <= i < s.len() ==> is_ascii_byte(#[trigger] s[i]),
        s.len() == 0 || line_len(s) > 0,
    ensures
        forall|i: int|
            0 <= i < without_newlines(s).len() ==> is_ascii_byte(#[trigger] without_newlines(s)[i]),
        rows_text(without_newlines(s), line_len(s), text_height(s)) == with_final_newline(s),
        ascii_text(rows_text(without_newlines(s), line_len(s), text_height(s))) == ascii_text(
            with_final_newline(s),
        ),
{
    lemma_without_newlines_ascii(s);
    let w = line_len(s);
    if s.len() == 0 {
        assert(text_height(s) == 0);
    } else {
        let lines = split_lines(s);
        lemma_line_len(s);
        if w < s.len() {
            assert(lines[0] =~= s.take(w as int));
        }
        assert(lines[0].len() == w);
        let k = lemma_rows_of_text(s, w);
        assert((k * w) as int / (w as int) == k) by (nonlinear_arith)
            requires
                w > 0,
        ;
    }
}

} // verus!
