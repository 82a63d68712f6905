//! Rendering a grid of escape counts as lines of coloured block glyphs.

use crate::ansi::{colour, foreground_text, glyph_text, lemma_decimal_is_digits, reset_text};
use crate::grid::{is_field, lemma_field_is_unique, rows_of};
use crate::palette::{band_colour, from_val};
use vstd::prelude::*;
use vstd::string::StringExecFns;

verus! {

/// The glyph that stands for one pixel: a solid block.
pub const BLOCK: char = '\u{2588}';

/// The text of one cell: the block glyph in the colour of its escape count.
pub open spec fn cell_text(count: usize) -> Seq<char> {
    glyph_text(BLOCK, band_colour(count as nat))
}

/// The text of one row: the texts of its cells, in column order.
pub open spec fn row_text(row: Seq<usize>) -> Seq<char>
    decreases row.len(),
{
    if row.len() == 0 {
        Seq::empty()
    } else {
        row_text(row.drop_last()) + cell_text(row.last())
    }
}

/// Whether `lines` is the rendering of `rows`: one line for each row, in row
/// order, each the text of its row.
pub open spec fn is_rendering(lines: Seq<Seq<char>>, rows: Seq<Seq<usize>>) -> bool {
    &&& lines.len() == rows.len()
    &&& forall|i: int| 0 <= i < rows.len() ==> #[trigger] lines[i] == row_text(rows[i])
}

/// The test for the block glyph.
pub open spec fn is_block() -> spec_fn(char) -> bool {
    |ch: char| ch == BLOCK
}

/// The number of block glyphs in `text`.
pub open spec fn block_count(text: Seq<char>) -> nat {
    text.filter(is_block()).len()
}

/// The lines of a rendering as sequences of characters.
pub open spec fn lines_of(lines: Seq<String>) -> Seq<Seq<char>> {
    Seq::new(lines.len(), |i: int| lines[i]@)
}

/// Renders one row of escape counts as a line of text, without a line end.
pub fn render_row(row: &Vec<usize>) -> (line: String)
    ensures
        line@ == row_text(row@),
{
    let mut line = String::new();
    let mut i: usize = 0;
    while i < row.len()
        invariant
            i <= row.len(),
            line@ == row_text(row@.take(i as int)),
        decreases row.len() - i,
    {
        let val = colour(BLOCK, from_val(row[i]));
        line.append(val.as_str());
        proof {
            let upto = row@.take(i + 1);
            assert(upto.drop_last() =~= row@.take(i as int));
            assert(upto.last() == row[i as int]);
        }
        i += 1;
    }
    assert(row@.take(i as int) =~= row@);
    line
}

/// Renders a grid of escape counts: one line for each row, in row order,
/// each holding one coloured block glyph for each cell, in column order.
pub fn render_mandelbrot(escape_vals: Vec<Vec<usize>>) -> (lines: Vec<String>)
    ensures
        is_rendering(lines_of(lines@), rows_of(escape_vals@)),
{
    let mut lines: Vec<String> = Vec::new();
    let mut i: usize = 0;
    while i < escape_vals.len()
        invariant
            i <= escape_vals.len(),
            lines.len() == i,
            forall|k: int| 0 <= k < i ==> (#[trigger] lines[k])@ == row_text(escape_vals[k]@),
        decreases escape_vals.len() - i,
    {
        let line = render_row(&escape_vals[i]);
        lines.push(line);
        i += 1;
    }
    lines
}

/// A text without a block glyph counts none.
proof fn lemma_no_block(text: Seq<char>)
    requires
        forall|i: int| 0 <= i < text.len() ==> #[trigger] text[i] != BLOCK,
    ensures
        block_count(text) == 0,
    decreases text.len(),
{
    reveal(Seq::filter);
    if text.len() > 0 {
        lemma_no_block(text.drop_last());
    }
}

/// The block glyphs of a concatenation are those of its parts.
proof fn lemma_block_count_add(a: Seq<char>, b: Seq<char>)
    ensures
        block_count(a + b) == block_count(a) + block_count(b),
{
    Seq::filter_distributes_over_add(a, b, is_block());
}

/// The text of a cell holds exactly one block glyph: the escape sequences
/// around it hold none.
pub proof fn lemma_cell_has_one_block(count: usize)
    ensures
        block_count(cell_text(count)) == 1,
{
    let shade = band_colour(count as nat);
    let front = foreground_text(shade);
    lemma_decimal_is_digits(shade.r as nat);
    lemma_decimal_is_digits(shade.g as nat);
    lemma_decimal_is_digits(shade.b as nat);
    lemma_no_block(front);
    lemma_no_block(reset_text());
    let glyph = seq![BLOCK];
    assert(block_count(glyph) == 1) by {
        reveal(Seq::filter);
        assert(glyph.drop_last() =~= Seq::<char>::empty());
        assert(glyph.drop_last().filter(is_block()) =~= Seq::<char>::empty());
    }
    assert(cell_text(count) =~= (front + glyph) + reset_text());
    lemma_block_count_add(front + glyph, reset_text());
    lemma_block_count_add(front, glyph);
}

/// A row is rendered with one block glyph for each of its cells.
pub proof fn lemma_row_has_one_block_per_cell(row: Seq<usize>)
    ensures
        block_count(row_text(row)) == row.len(),
    decreases row.len(),
{
    if row.len() == 0 {
        lemma_no_block(row_text(row));
    } else {
        lemma_row_has_one_block_per_cell(row.drop_last());
        lemma_cell_has_one_block(row.last());
        lemma_block_count_add(row_text(row.drop_last()), cell_text(row.last()));
    }
}

/// The rendering of a grid of `height` rows of `width` cells has `height`
/// lines, each with `width` block glyphs.
pub proof fn lemma_rendering_keeps_shape(
    lines: Seq<Seq<char>>,
    rows: Seq<Seq<usize>>,
    width: nat,
    height: nat,
)
    requires
        is_rendering(lines, rows),
        rows.len() == height,
        forall|i: int| 0 <= i < height ==> (#[trigger] rows[i]).len() == width,
    ensures
        lines.len() == height,
        forall|i: int| 0 <= i < height ==> block_count(#[trigger] lines[i]) == width,
{
    assert forall|i: int| 0 <= i < height implies block_count(#[trigger] lines[i]) == width by {
        lemma_row_has_one_block_per_cell(rows[i]);
    }
}

/// A grid has one rendering: rendering it again gives the same text.
pub proof fn lemma_rendering_is_unique(
    first: Seq<Seq<char>>,
    second: Seq<Seq<char>>,
    rows: Seq<Seq<usize>>,
)
    requires
        is_rendering(first, rows),
        is_rendering(second, rows),
    ensures
        first == second,
{
    assert(first =~= second);
}

/// Sampling a field and rendering it gives `height` lines of `width` block
/// glyphs each.
pub proof fn lemma_field_rendering_shape<F: Fn(usize, usize) -> usize>(
    lines: Seq<Seq<char>>,
    rows: Seq<Seq<usize>>,
    width: nat,
    height: nat,
    sample: F,
)
    requires
        is_field(rows, width, height, sample),
        is_rendering(lines, rows),
    ensures
        lines.len() == height,
        forall|i: int| 0 <= i < height ==> block_count(#[trigger] lines[i]) == width,
{
    lemma_rendering_keeps_shape(lines, rows, width, height);
}

/// Sampling and rendering again reproduces the text: where `sample` has one
/// result for each pixel, two renderings of two fields sampled from it at the
/// same size are equal.
pub proof fn lemma_field_rendering_is_unique<F: Fn(usize, usize) -> usize>(
    first_lines: Seq<Seq<char>>,
    first_rows: Seq<Seq<usize>>,
    second_lines: Seq<Seq<char>>,
    second_rows: Seq<Seq<usize>>,
    width: nat,
    height: nat,
    sample: F,
)
    requires
        is_field(first_rows, width, height, sample),
        is_field(second_rows, width, height, sample),
        is_rendering(first_lines, first_rows),
        is_rendering(second_lines, second_rows),
        forall|col: usize, row: usize, a: usize, b: usize|
            col < width && row < height && #[trigger] sample.ensures((col, row), a)
                && #[trigger] sample.ensures((col, row), b) ==> a == b,
    ensures
        first_lines == second_lines,
{
    lemma_field_is_unique(first_rows, second_rows, width, height, sample);
    lemma_rendering_is_unique(first_lines, second_lines, first_rows);
}

} // verus!
