//! Reading a level from its text grid.
//!
//! A level file is plain text. Each line is one row of the grid, the first
//! line the topmost row; each character of a line is one cell, and a cell
//! that holds `#` is a block. The playfield is as wide as the longest line and
//! as tall as the number of lines, with room below the lowest row for the
//! paddle.

use vstd::prelude::*;

verus! {

/// Width of one block.
pub const BLOCK_W: i32 = 24;

/// Height of one block.
pub const BLOCK_H: i32 = 16;

/// Distance from the bottom of the playfield to the bottom of the lowest row.
pub const BOTTOM_TO_BLOCK_BOTTOM: i32 = 256;

/// Distance from the bottom of the playfield to the bottom of the paddle.
pub const BOTTOM_TO_PADDLE_BOTTOM: i32 = 32;

/// Half the width of the paddle.
pub const PADDLE_RADIUS: i32 = 48;

/// Height of the paddle.
pub const PADDLE_HEIGHT: i32 = 16;

/// Thickness of the walls that enclose the playfield.
pub const WALL: i32 = 24;

/// Radius of a ball.
pub const BALL_RADIUS: i32 = 8;

/// Speed at which a ball leaves the paddle, straight up.
pub const LAUNCH_SPEED: i32 = 300;

/// How far below its lowest point a ball is probed when it is asked whether
/// the ball is still on the playfield.
pub const CULL_MARGIN: i32 = 12;

/// No coordinate of a level, its walls included, exceeds this bound: up to
/// it every integer has an exact single-precision representation, so the
/// caller's continuous arithmetic starts from the very numbers held here.
pub const COORD_LIMIT: i32 = 16_777_216;

/// The most columns a grid can have and still fit across.
pub const MAX_COLS: usize = 699_048;

/// The most rows a grid can have and still fit upward.
pub const MAX_ROWS: usize = 1_048_558;

/// The character that ends a line.
pub const LINE_END: char = '\n';

/// The character that marks a block.
pub const BLOCK_MARK: char = '#';

/// An axis-aligned rectangle, given by its bottom-left corner and its size.
#[derive(Clone, Copy, Debug, PartialEq, Eq, Structural)]
pub struct Rect {
    pub x: i32,
    pub y: i32,
    pub w: i32,
    pub h: i32,
}

/// One of the three walls that enclose the playfield. The side below the
/// paddle is open: a ball leaves the game through it.
#[derive(Clone, Copy, Debug, PartialEq, Eq, Structural)]
pub enum Wall {
    Left,
    Right,
    Top,
}

/// Why a text grid is not a level.
#[derive(Clone, Copy, Debug, PartialEq, Eq, Structural)]
pub enum LevelError {
    /// The longest line has more cells than fit across.
    TooWide,
    /// The lines fit across, but there are more of them than fit upward.
    TooTall,
}

/// The number of characters before the first line end; the whole length
/// where there is none.
pub open spec fn first_break(text: Seq<char>) -> int
    decreases text.len(),
{
    if text.len() == 0 || text[0] == LINE_END {
        0
    } else {
        1 + first_break(text.skip(1))
    }
}

/// The lines of a text. A line ends at a line end or at the end of the
/// text; the line end belongs to no line, and after the last line end an
/// empty remainder is no line.
pub open spec fn lines_of(text: Seq<char>) -> Seq<Seq<char>>
    decreases text.len(),
{
    if text.len() == 0 {
        Seq::empty()
    } else {
        let k = first_break(text);
        if 0 <= k < text.len() {
            seq![text.take(k)] + lines_of(text.skip(k + 1))
        } else {
            seq![text]
        }
    }
}

/// The length of the longest line.
pub open spec fn widest(lines: Seq<Seq<char>>) -> nat
    decreases lines.len(),
{
    if lines.len() == 0 {
        0
    } else {
        let rest = widest(lines.drop_last());
        if lines.last().len() > rest {
            lines.last().len()
        } else {
            rest
        }
    }
}

/// The block of the cell in column `col` of the line `row`, the lines
/// counted from the top of a grid of `rows` lines: the lowest line stands
/// `BOTTOM_TO_BLOCK_BOTTOM` above the bottom of the playfield.
pub open spec fn block_at(col: int, row: int, rows: int) -> Rect {
    Rect {
        x: (BLOCK_W * col) as i32,
        y: (BLOCK_H * (rows - row - 1) + BOTTOM_TO_BLOCK_BOTTOM) as i32,
        w: BLOCK_W,
        h: BLOCK_H,
    }
}

/// The blocks among the first `n` cells of a line, from left to right.
pub open spec fn blocks_in_line(line: Seq<char>, n: int, row: int, rows: int) -> Seq<Rect>
    decreases n,
{
    if n <= 0 {
        Seq::empty()
    } else {
        let before = blocks_in_line(line, n - 1, row, rows);
        if line[n - 1] == BLOCK_MARK {
            before.push(block_at(n - 1, row, rows))
        } else {
            before
        }
    }
}

/// The blocks of the first `n` lines of a grid, line by line from the top.
pub open spec fn blocks_in_lines(lines: Seq<Seq<char>>, n: int) -> Seq<Rect>
    decreases n,
{
    if n <= 0 {
        Seq::empty()
    } else {
        blocks_in_lines(lines, n - 1) + blocks_in_line(
            lines[n - 1],
            lines[n - 1].len() as int,
            n - 1,
            lines.len() as int,
        )
    }
}

/// What a level is made of: the size of its grid and its blocks, in
/// reading order.
pub struct LayoutView {
    pub cols: nat,
    pub rows: nat,
    pub blocks: Seq<Rect>,
}

impl LayoutView {
    /// Width of the playfield.
    pub open spec fn width(self) -> int {
        BLOCK_W * self.cols
    }

    /// Height of the playfield.
    pub open spec fn height(self) -> int {
        BLOCK_H * self.rows + BOTTOM_TO_BLOCK_BOTTOM
    }

    /// From wall to wall, the level stays within `COORD_LIMIT`.
    pub open spec fn fits_across(self) -> bool {
        self.width() + 2 * WALL <= COORD_LIMIT
    }

    /// From the bottom to the top of the top wall, the level stays within
    /// `COORD_LIMIT`.
    pub open spec fn fits_upward(self) -> bool {
        self.height() + WALL <= COORD_LIMIT
    }

    /// The playfield and its walls stay within `COORD_LIMIT`.
    pub open spec fn fits(self) -> bool {
        self.fits_across() && self.fits_upward()
    }

    /// The block lies on the grid, inside the playfield and not below the
    /// lowest row.
    pub open spec fn on_grid(self, block: Rect) -> bool {
        &&& block.w == BLOCK_W
        &&& block.h == BLOCK_H
        &&& 0 <= block.x
        &&& block.x + BLOCK_W <= self.width()
        &&& BOTTOM_TO_BLOCK_BOTTOM <= block.y
        &&& block.y + BLOCK_H <= self.height()
    }

    /// The level fits, a vector can hold its blocks, and all of them lie
    /// on its grid.
    pub open spec fn wf(self) -> bool {
        &&& self.fits()
        &&& self.blocks.len() <= usize::MAX
        &&& forall|k: int| 0 <= k < self.blocks.len() ==> self.on_grid(#[trigger] self.blocks[k])
    }
}

/// The playfield of a level of the given size.
pub open spec fn field_rect(width: int, height: int) -> Rect {
    Rect { x: 0, y: 0, w: width as i32, h: height as i32 }
}

/// The paddle at the start of a level of the given width: centred, just
/// above the bottom.
pub open spec fn paddle_rect(width: int) -> Rect {
    Rect {
        x: (width / 2 - PADDLE_RADIUS) as i32,
        y: BOTTOM_TO_PADDLE_BOTTOM,
        w: (2 * PADDLE_RADIUS) as i32,
        h: PADDLE_HEIGHT,
    }
}

/// A wall of a level of the given size: a rectangle just outside the
/// playfield. The side walls are as tall as the playfield; the top wall
/// spans both of them.
pub open spec fn wall_rect(wall: Wall, width: int, height: int) -> Rect {
    match wall {
        Wall::Left => Rect { x: (-WALL) as i32, y: 0, w: WALL, h: height as i32 },
        Wall::Right => Rect { x: width as i32, y: 0, w: WALL, h: height as i32 },
        Wall::Top => Rect {
            x: (-WALL) as i32,
            y: height as i32,
            w: (width + 2 * WALL) as i32,
            h: WALL,
        },
    }
}

/// The level that a grid of lines describes.
pub open spec fn layout_of(lines: Seq<Seq<char>>) -> LayoutView {
    LayoutView {
        cols: widest(lines),
        rows: lines.len(),
        blocks: blocks_in_lines(lines, lines.len() as int),
    }
}

/// A level as read from its text: the playfield and the blocks it starts
/// with.
#[derive(Debug)]
pub struct LevelLayout {
    cols: usize,
    rows: usize,
    blocks: Vec<Rect>,
}

impl View for LevelLayout {
    type V = LayoutView;

    closed spec fn view(&self) -> LayoutView {
        LayoutView { cols: self.cols as nat, rows: self.rows as nat, blocks: self.blocks@ }
    }
}

/// The lines held by a vector of character vectors.
pub open spec fn rows_of(lines: Seq<Vec<char>>) -> Seq<Seq<char>> {
    lines.map_values(|line: Vec<char>| line@)
}

proof fn lemma_first_break(text: Seq<char>, k: int)
    requires
        0 <= k <= text.len(),
        forall|j: int| 0 <= j < k ==> text[j] != LINE_END,
        k == text.len() || text[k] == LINE_END,
    ensures
        first_break(text) == k,
    decreases k,
{
    if k > 0 {
        lemma_first_break(text.skip(1), k - 1);
    }
}

proof fn lemma_widest_bounds(lines: Seq<Seq<char>>, j: int)
    requires
        0 <= j < lines.len(),
    ensures
        lines[j].len() <= widest(lines),
    decreases lines.len(),
{
    if j < lines.len() - 1 {
        lemma_widest_bounds(lines.drop_last(), j);
    }
}

/// The lines put end to end, each followed by a line end.
pub open spec fn joined(lines: Seq<Seq<char>>) -> Seq<char>
    decreases lines.len(),
{
    if lines.len() == 0 {
        Seq::empty()
    } else {
        lines[0].push(LINE_END) + joined(lines.skip(1))
    }
}

/// The text, with a line end added where its last line lacks one.
pub open spec fn closed_text(text: Seq<char>) -> Seq<char> {
    if text.len() > 0 && text.last() != LINE_END {
        text.push(LINE_END)
    } else {
        text
    }
}

proof fn lemma_break_found(text: Seq<char>)
    ensures
        0 <= first_break(text) <= text.len(),
        forall|j: int| 0 <= j < first_break(text) ==> text[j] != LINE_END,
        first_break(text) < text.len() ==> text[first_break(text)] == LINE_END,
    decreases text.len(),
{
    if !(text.len() == 0 || text[0] == LINE_END) {
        let rest = text.skip(1);
        lemma_break_found(rest);
        assert forall|j: int| 0 <= j < first_break(text) implies text[j] != LINE_END by {
            if j > 0 {
                assert(rest[j - 1] == text[j]);
            }
        }
        assert(first_break(rest) < rest.len() ==> rest[first_break(rest)] == text[first_break(
            text,
        )]);
    }
}

/// No line holds a line end, and the lines, each followed by a line end,
/// give the text back: nothing of it is lost, and nothing is added but the
/// line end that its last line may lack.
pub proof fn law_lines_give_the_text_back(text: Seq<char>)
    ensures
        forall|k: int, j: int|
            0 <= k < lines_of(text).len() && 0 <= j < lines_of(text)[k].len() ==> (
            #[trigger] lines_of(text)[k][j]) != LINE_END,
        joined(lines_of(text)) == closed_text(text),
    decreases text.len(),
{
    if text.len() > 0 {
        let k = first_break(text);
        lemma_break_found(text);
        if k < text.len() {
            let rest = text.skip(k + 1);
            law_lines_give_the_text_back(rest);
            assert(lines_of(text).skip(1) =~= lines_of(rest));
        } else {
            assert(joined(lines_of(text).skip(1)) =~= Seq::<char>::empty());
        }
    }
}

/// The number of marks among the first `n` cells of a line.
pub open spec fn marks_in_line(line: Seq<char>, n: int) -> nat
    decreases n,
{
    if n <= 0 {
        0
    } else if line[n - 1] == BLOCK_MARK {
        marks_in_line(line, n - 1) + 1
    } else {
        marks_in_line(line, n - 1)
    }
}

/// The number of marks in the first `n` lines of a grid.
pub open spec fn marks_in_lines(lines: Seq<Seq<char>>, n: int) -> nat
    decreases n,
{
    if n <= 0 {
        0
    } else {
        marks_in_lines(lines, n - 1) + marks_in_line(lines[n - 1], lines[n - 1].len() as int)
    }
}

/// Two rectangles share no area.
pub open spec fn apart(a: Rect, b: Rect) -> bool {
    ||| a.x + a.w <= b.x
    ||| b.x + b.w <= a.x
    ||| a.y + a.h <= b.y
    ||| b.y + b.h <= a.y
}

proof fn lemma_line_blocks(line: Seq<char>, n: int, row: int, rows: int)
    requires
        0 <= n <= line.len(),
        n <= MAX_COLS,
        0 <= row < rows <= MAX_ROWS,
    ensures
        blocks_in_line(line, n, row, rows).len() == marks_in_line(line, n),
        forall|k: int|
            0 <= k < blocks_in_line(line, n, row, rows).len() ==> {
                let block = #[trigger] blocks_in_line(line, n, row, rows)[k];
                &&& block.y == BLOCK_H * (rows - row - 1) + BOTTOM_TO_BLOCK_BOTTOM
                &&& block.w == BLOCK_W
                &&& block.h == BLOCK_H
                &&& 0 <= block.x
                &&& block.x + BLOCK_W <= BLOCK_W * n
            },
        forall|a: int, b: int|
            0 <= a < b < blocks_in_line(line, n, row, rows).len() ==> (#[trigger] blocks_in_line(
                line,
                n,
                row,
                rows,
            )[a]).x + BLOCK_W <= (#[trigger] blocks_in_line(line, n, row, rows)[b]).x,
    decreases n,
{
    if n > 0 {
        lemma_line_blocks(line, n - 1, row, rows);
    }
}

proof fn lemma_grid_blocks(lines: Seq<Seq<char>>, n: int)
    requires
        0 <= n <= lines.len(),
        widest(lines) <= MAX_COLS,
        lines.len() <= MAX_ROWS,
    ensures
        blocks_in_lines(lines, n).len() == marks_in_lines(lines, n),
        forall|k: int|
            0 <= k < blocks_in_lines(lines, n).len() ==> {
                let block = #[trigger] blocks_in_lines(lines, n)[k];
                &&& block.y >= BLOCK_H * (lines.len() - n) + BOTTOM_TO_BLOCK_BOTTOM
                &&& layout_of(lines).on_grid(block)
            },
        forall|a: int, b: int|
            0 <= a < b < blocks_in_lines(lines, n).len() ==> apart(
                #[trigger] blocks_in_lines(lines, n)[a],
                #[trigger] blocks_in_lines(lines, n)[b],
            ),
    decreases n,
{
    if n > 0 {
        let line = lines[n - 1];
        lemma_grid_blocks(lines, n - 1);
        lemma_widest_bounds(lines, n - 1);
        lemma_line_blocks(line, line.len() as int, n - 1, lines.len() as int);
    }
}

/// A grid gives one block for each of its marks.
pub proof fn law_one_block_per_mark(lines: Seq<Seq<char>>)
    requires
        layout_of(lines).fits(),
    ensures
        layout_of(lines).blocks.len() == marks_in_lines(lines, lines.len() as int),
{
    lemma_grid_blocks(lines, lines.len() as int);
}

/// The blocks of a grid that fits lie on the grid, and no two of them share
/// any area.
pub proof fn law_blocks_apart(lines: Seq<Seq<char>>)
    requires
        layout_of(lines).fits(),
    ensures
        forall|k: int|
            0 <= k < layout_of(lines).blocks.len() ==> layout_of(lines).on_grid(
                #[trigger] layout_of(lines).blocks[k],
            ),
        forall|a: int, b: int|
            0 <= a < b < layout_of(lines).blocks.len() ==> apart(
                #[trigger] layout_of(lines).blocks[a],
                #[trigger] layout_of(lines).blocks[b],
            ),
{
    lemma_grid_blocks(lines, lines.len() as int);
}

/// Cuts a text into its lines.
pub fn split_lines(text: &str) -> (lines: Vec<Vec<char>>)
    ensures
        rows_of(lines@) == lines_of(text@),
{
    let mut lines: Vec<Vec<char>> = Vec::new();
    let mut line: Vec<char> = Vec::new();
    let ghost mut start: int = 0;
    assert(text@.skip(0) =~= text@);
    for c in it: text.chars()
        invariant
            it.seq() == text@,
            0 <= start <= it.index() <= text@.len(),
            line@ == text@.subrange(start, it.index() as int),
            forall|j: int| start <= j < it.index() ==> text@[j] != LINE_END,
            lines_of(text@) == rows_of(lines@) + lines_of(text@.skip(start)),
    {
        let ghost p = it.index() as int;
        if c == LINE_END {
            proof {
                let rest = text@.skip(start);
                lemma_first_break(rest, p - start);
                assert(rest.take(p - start) =~= line@);
                assert(rest.skip(p - start + 1) =~= text@.skip(p + 1));
            }
            lines.push(line);
            line = Vec::new();
            proof {
                start = p + 1;
            }
        } else {
            line.push(c);
        }
    }
    if line.len() > 0 {
        proof {
            lemma_first_break(text@.skip(start), text@.len() - start);
        }
        lines.push(line);
    }
    lines
}

fn longest(lines: &Vec<Vec<char>>) -> (cols: usize)
    ensures
        cols == widest(rows_of(lines@)),
{
    let mut cols: usize = 0;
    let mut j: usize = 0;
    while j < lines.len()
        invariant
            j <= lines@.len(),
            cols == widest(rows_of(lines@).take(j as int)),
        decreases lines@.len() - j,
    {
        assert(rows_of(lines@).take(j + 1).drop_last() =~= rows_of(lines@).take(j as int));
        if lines[j].len() > cols {
            cols = lines[j].len();
        }
        j = j + 1;
    }
    assert(rows_of(lines@).take(j as int) =~= rows_of(lines@));
    cols
}

/// Reads a level from the text of its file. The text is a level unless its
/// grid is too large to fit; then the error says in which direction.
pub fn parse_level(text: &str) -> (r: Result<LevelLayout, LevelError>)
    ensures
        r is Ok <==> layout_of(lines_of(text@)).fits(),
        r matches Ok(layout) ==> layout@ == layout_of(lines_of(text@)) && layout@.wf(),
        r matches Err(e) ==> e == (if layout_of(lines_of(text@)).fits_across() {
            LevelError::TooTall
        } else {
            LevelError::TooWide
        }),
{
    let lines = split_lines(text);
    let ghost grid = lines_of(text@);
    let cols = longest(&lines);
    let rows = lines.len();
    if cols > MAX_COLS {
        return Err(LevelError::TooWide);
    }
    if rows > MAX_ROWS {
        return Err(LevelError::TooTall);
    }
    let mut blocks: Vec<Rect> = Vec::new();
    let mut j: usize = 0;
    while j < rows
        invariant
            j <= rows,
            rows == lines@.len(),
            rows <= MAX_ROWS,
            cols <= MAX_COLS,
            grid == rows_of(lines@),
            cols == widest(grid),
            blocks@ == blocks_in_lines(grid, j as int),
        decreases rows - j,
    {
        let line = &lines[j];
        let mut i: usize = 0;
        proof {
            lemma_widest_bounds(grid, j as int);
        }
        while i < line.len()
            invariant
                i <= line@.len(),
                j < rows,
                rows <= MAX_ROWS,
                rows == grid.len(),
                line@ == grid[j as int],
                line@.len() <= MAX_COLS,
                blocks@ == blocks_in_lines(grid, j as int) + blocks_in_line(
                    line@,
                    i as int,
                    j as int,
                    rows as int,
                ),
            decreases line@.len() - i,
        {
            if line[i] == BLOCK_MARK {
                blocks.push(
                    Rect {
                        x: BLOCK_W * (i as i32),
                        y: BLOCK_H * ((rows - j - 1) as i32) + BOTTOM_TO_BLOCK_BOTTOM,
                        w: BLOCK_W,
                        h: BLOCK_H,
                    },
                );
            }
            i = i + 1;
        }
        j = j + 1;
    }
    proof {
        lemma_grid_blocks(grid, rows as int);
    }
    assert(blocks@.len() == blocks.len());
    Ok(LevelLayout { cols, rows, blocks })
}

impl LevelLayout {
    /// Number of columns of the grid.
    pub fn cols(&self) -> (n: usize)
        ensures
            n == self@.cols,
    {
        self.cols
    }

    /// Number of rows of the grid.
    pub fn rows(&self) -> (n: usize)
        ensures
            n == self@.rows,
    {
        self.rows
    }

    /// Width of the playfield.
    pub fn width(&self) -> (w: i32)
        requires
            self@.wf(),
        ensures
            w == self@.width(),
    {
        BLOCK_W * (self.cols as i32)
    }

    /// Height of the playfield.
    pub fn height(&self) -> (h: i32)
        requires
            self@.wf(),
        ensures
            h == self@.height(),
    {
        BLOCK_H * (self.rows as i32) + BOTTOM_TO_BLOCK_BOTTOM
    }

    /// Number of blocks the level starts with.
    pub fn block_count(&self) -> (n: usize)
        ensures
            n == self@.blocks.len(),
    {
        self.blocks.len()
    }

    /// The block at position `k` in reading order.
    pub fn block(&self, k: usize) -> (block: Rect)
        requires
            k < self@.blocks.len(),
        ensures
            block == self@.blocks[k as int],
    {
        self.blocks[k]
    }
}

} // verus!
