//! The field as a grid: one sample per pixel, stored row by row.

use vstd::prelude::*;

verus! {

/// The rows of a grid as sequences of cells.
pub open spec fn rows_of(grid: Seq<Vec<usize>>) -> Seq<Seq<usize>> {
    Seq::new(grid.len(), |row: int| grid[row]@)
}

/// Whether `rows` is the field of `sample` at `width` by `height` pixels:
/// `height` rows of `width` cells each, the cell at `[row][col]` being a
/// result of `sample(col, row)`.
pub open spec fn is_field<F: Fn(usize, usize) -> usize>(
    rows: Seq<Seq<usize>>,
    width: nat,
    height: nat,
    sample: F,
) -> bool {
    &&& rows.len() == height
    &&& forall|row: int| 0 <= row < height ==> (#[trigger] rows[row]).len() == width
    &&& forall|row: int, col: int|
        0 <= row < height && 0 <= col < width ==> sample.ensures(
            (col as usize, row as usize),
            #[trigger] rows[row][col],
        )
}

/// Samples every pixel of a `width` by `height` grid, row by row and within
/// each row column by column, and returns the samples in row-major order.
/// `sample` is called with the column first and the row second.
pub fn sample_grid<F: Fn(usize, usize) -> usize>(width: usize, height: usize, sample: F) -> (grid:
    Vec<Vec<usize>>)
    requires
        forall|col: usize, row: usize|
            col < width && row < height ==> #[trigger] sample.requires((col, row)),
    ensures
        is_field(rows_of(grid@), width as nat, height as nat, sample),
{
    let mut grid: Vec<Vec<usize>> = Vec::new();
    let mut img_y: usize = 0;
    while img_y < height
        invariant
            img_y <= height,
            forall|col: usize, row: usize|
                col < width && row < height ==> #[trigger] sample.requires((col, row)),
            is_field(rows_of(grid@), width as nat, img_y as nat, sample),
        decreases height - img_y,
    {
        let mut cells: Vec<usize> = Vec::new();
        let mut img_x: usize = 0;
        while img_x < width
            invariant
                img_x <= width,
                img_y < height,
                forall|col: usize, row: usize|
                    col < width && row < height ==> #[trigger] sample.requires((col, row)),
                cells.len() == img_x,
                forall|col: int|
                    0 <= col < img_x ==> sample.ensures(
                        (col as usize, img_y),
                        #[trigger] cells[col],
                    ),
            decreases width - img_x,
        {
            let escaped_at = sample(img_x, img_y);
            cells.push(escaped_at);
            img_x += 1;
        }
        let ghost before = rows_of(grid@);
        grid.push(cells);
        proof {
            let after = rows_of(grid@);
            assert(after.len() == img_y + 1);
            assert forall|row: int| 0 <= row < img_y implies #[trigger] after[row] == before[row] by {}
            assert(after[img_y as int] == cells@);
        }
        img_y += 1;
    }
    grid
}

/// A bound that holds of every result of `sample` holds of every cell of its
/// field.
pub proof fn lemma_field_within_bound<F: Fn(usize, usize) -> usize>(
    rows: Seq<Seq<usize>>,
    width: nat,
    height: nat,
    sample: F,
    bound: nat,
)
    requires
        is_field(rows, width, height, sample),
        forall|col: usize, row: usize, count: usize|
            col < width && row < height && #[trigger] sample.ensures((col, row), count) ==> count
                <= bound,
    ensures
        forall|row: int, col: int|
            0 <= row < height && 0 <= col < width ==> #[trigger] rows[row][col] <= bound,
{
    assert forall|row: int, col: int| 0 <= row < height && 0 <= col < width implies #[trigger] rows[row][col]
        <= bound by {
        assert(sample.ensures((col as usize, row as usize), rows[row][col]));
    }
}

/// Where `sample` has one result for each pixel, it has one field: two grids
/// sampled from it at the same size are equal, whatever the order in which
/// their pixels were visited.
pub proof fn lemma_field_is_unique<F: Fn(usize, usize) -> usize>(
    first: Seq<Seq<usize>>,
    second: Seq<Seq<usize>>,
    width: nat,
    height: nat,
    sample: F,
)
    requires
        is_field(first, width, height, sample),
        is_field(second, width, height, sample),
        forall|col: usize, row: usize, a: usize, b: usize|
            col < width && row < height && #[trigger] sample.ensures((col, row), a)
                && #[trigger] sample.ensures((col, row), b) ==> a == b,
    ensures
        first == second,
{
    assert forall|row: int| 0 <= row < height implies #[trigger] first[row] == second[row] by {
        assert forall|col: int| 0 <= col < width implies #[trigger] first[row][col] == second[row][col] by {
            assert(sample.ensures((col as usize, row as usize), first[row][col]));
            assert(sample.ensures((col as usize, row as usize), second[row][col]));
        }
        assert(first[row].len() == width);
        assert(second[row].len() == width);
        assert(first[row] =~= second[row]);
    }
    assert(first =~= second);
}

} // verus!
