//! Properties of rendering that relate whole scenes, frames or several calls.
use vstd::prelude::*;
use crate::binary32::is_positive;
use crate::frame::{
    blank, cell_index, drawn, in_view, lemma_cell_in_range, lemma_drawn_ok, lemma_row_start,
    picture, plotted, Sample,
};
use crate::shade::{glyph_of, is_glyph, BACKGROUND};

verus! {

/// On a screen of positive size the picture has `height` rows of `width`
/// cells, and each cell is the background or a glyph of the ramp.
pub proof fn lemma_picture_shape(samples: Seq<Sample>, width: nat, height: nat)
    requires
        width > 0,
        height > 0,
    ensures
        picture(samples, width, height).len() == height,
        forall|r: int|
            0 <= r < height ==> (#[trigger] picture(samples, width, height)[r]).len() == width,
        forall|r: int, c: int|
            0 <= r < height && 0 <= c < width ==> is_glyph(
                #[trigger] picture(samples, width, height)[r][c],
            ),
{
    let cells = drawn(samples, width, height).0;
    lemma_drawn_ok(samples, width, height);
    assert forall|r: int| 0 <= r < height implies (#[trigger] picture(
        samples,
        width,
        height,
    )[r]).len() == width by {
        lemma_row_start(r, width, height);
    }
    assert forall|r: int, c: int| 0 <= r < height && 0 <= c < width implies is_glyph(
        #[trigger] picture(samples, width, height)[r][c],
    ) by {
        lemma_row_start(r, width, height);
        assert(picture(samples, width, height)[r][c] == cells[r * width + c]);
    }
}

/// Rendering has no hidden state: the same samples on the same screen give
/// the same picture.
pub proof fn lemma_picture_deterministic(
    a: Seq<Sample>,
    b: Seq<Sample>,
    width: nat,
    height: nat,
)
    requires
        a == b,
    ensures
        picture(a, width, height) == picture(b, width, height),
{
}

/// Of two lit samples on the same cell, the one with the larger inverse depth
/// decides the cell's glyph and depth, whichever of the two comes first.
pub proof fn lemma_nearer_sample_wins(near: Sample, far: Sample, width: nat, height: nat)
    requires
        in_view(near, width, height),
        far.column == near.column,
        far.row == near.row,
        is_positive(near.luminance),
        is_positive(far.luminance),
        is_positive(near.depth),
        is_positive(far.depth),
        far.depth < near.depth,
    ensures
        drawn(seq![near, far], width, height) == drawn(seq![far, near], width, height),
        drawn(seq![near, far], width, height).0[cell_index(near, width)] == glyph_of(
            near.luminance,
        ),
        drawn(seq![near, far], width, height).1[cell_index(near, width)] == near.depth,
{
    lemma_cell_in_range(near.column as int, near.row as int, width, height);
    let i = cell_index(near, width);
    let b = blank(width, height);
    assert(seq![near, far].drop_last() =~= seq![near]);
    assert(seq![far, near].drop_last() =~= seq![far]);
    assert(seq![near].drop_last() =~= Seq::<Sample>::empty());
    assert(seq![far].drop_last() =~= Seq::<Sample>::empty());
    assert(drawn(Seq::<Sample>::empty(), width, height) == b);
    assert(seq![near].last() == near && seq![far].last() == far);
    assert(drawn(seq![near], width, height) == plotted(b, near, width, height));
    assert(drawn(seq![far], width, height) == plotted(b, far, width, height));
    let one = plotted(b, far, width, height);
    assert(one.1[i] == far.depth);
    assert(plotted(one, near, width, height).0 =~= plotted(b, near, width, height).0);
    assert(plotted(one, near, width, height).1 =~= plotted(b, near, width, height).1);
}

proof fn lemma_cell_index_injective(c1: int, r1: int, c2: int, r2: int, width: nat)
    requires
        0 <= c1 < width,
        0 <= c2 < width,
        0 <= r1,
        0 <= r2,
        r1 * width + c1 == r2 * width + c2,
    ensures
        c1 == c2,
        r1 == r2,
{
    if r1 < r2 {
        assert(r1 * width + width <= r2 * width) by (nonlinear_arith)
            requires
                r1 < r2,
        ;
    } else if r2 < r1 {
        assert(r2 * width + width <= r1 * width) by (nonlinear_arith)
            requires
                r2 < r1,
        ;
    }
}

/// A cell that no sample falls on keeps the background glyph.
pub proof fn lemma_untouched_cell_stays_blank(
    samples: Seq<Sample>,
    width: nat,
    height: nat,
    column: nat,
    row: nat,
)
    requires
        column < width,
        row < height,
        forall|k: int|
            0 <= k < samples.len() ==> !((#[trigger] samples[k]).column == column
                && samples[k].row == row),
    ensures
        drawn(samples, width, height).0[(row * width + column) as int] == BACKGROUND,
        picture(samples, width, height)[row as int][column as int] == BACKGROUND,
    decreases samples.len(),
{
    lemma_cell_in_range(column as int, row as int, width, height);
    lemma_drawn_ok(samples, width, height);
    let t: int = (row * width + column) as int;
    if samples.len() == 0 {
        assert(drawn(samples, width, height) == blank(width, height));
    } else {
        let rest = samples.drop_last();
        let s = samples.last();
        assert forall|k: int| 0 <= k < rest.len() implies !((#[trigger] rest[k]).column == column
            && rest[k].row == row) by {
            assert(rest[k] == samples[k]);
        }
        lemma_untouched_cell_stays_blank(rest, width, height, column, row);
        lemma_drawn_ok(rest, width, height);
        let prev = drawn(rest, width, height);
        assert(drawn(samples, width, height) == plotted(prev, s, width, height));
        assert(samples[samples.len() - 1] == s);
        if in_view(s, width, height) {
            lemma_cell_in_range(s.column as int, s.row as int, width, height);
            if cell_index(s, width) == t {
                lemma_cell_index_injective(
                    s.column as int,
                    s.row as int,
                    column as int,
                    row as int,
                    width,
                );
            }
            assert(plotted(prev, s, width, height).0[t] == prev.0[t]);
        }
    }
    lemma_row_start(row as int, width, height);
    let cells = drawn(samples, width, height).0;
    assert(picture(samples, width, height)[row as int] == cells.subrange(
        (row * width) as int,
        (row * width + width) as int,
    ));
}

} // verus!
