//! The screen and depth buffers of one frame, and the depth-tested plotting of
//! projected surface samples into them.
use vstd::prelude::*;
use crate::binary32::is_positive;
use crate::shade::{glyph_for, glyph_of, is_glyph, BACKGROUND};

verus! {

/// One surface sample after projection: the screen cell it falls on, its
/// inverse depth and its luminance. The two real values are binary32 bit
/// patterns; among non-negative values their order as unsigned integers is
/// their numeric order.
#[derive(Clone, Copy, Debug, PartialEq, Eq)]
pub struct Sample {
    pub column: isize,
    pub row: isize,
    pub depth: u32,
    pub luminance: u32,
}

/// The two buffers of a frame, row-major: glyphs and inverse depths.
pub type Buffers = (Seq<u8>, Seq<u32>);

/// The sample falls on a cell of a `width` by `height` screen.
pub open spec fn in_view(s: Sample, width: nat, height: nat) -> bool {
    0 <= s.column < width && 0 <= s.row < height
}

/// Row-major position of the sample's cell.
pub open spec fn cell_index(s: Sample, width: nat) -> int {
    s.row * width + s.column
}

/// An inverse depth `depth` exceeds the stored `current`, which is zero or a
/// positive value. A positive pattern exceeds such a value exactly when its
/// bits are greater; zero, negative values and NaN exceed nothing.
pub open spec fn nearer(depth: u32, current: u32) -> bool {
    is_positive(depth) && depth > current
}

/// The buffers of a fresh frame: every cell background, every depth zero.
pub open spec fn blank(width: nat, height: nat) -> Buffers {
    (Seq::new(width * height, |i: int| BACKGROUND), Seq::new(width * height, |i: int| 0u32))
}

/// The buffers after offering one sample: a sample on screen, lit (positive
/// luminance) and nearer than what its cell holds, replaces the cell's glyph
/// and depth; any other sample leaves them as they were.
pub open spec fn plotted(b: Buffers, s: Sample, width: nat, height: nat) -> Buffers {
    if in_view(s, width, height) && is_positive(s.luminance) && nearer(
        s.depth,
        b.1[cell_index(s, width)],
    ) {
        let i = cell_index(s, width);
        (b.0.update(i, glyph_of(s.luminance)), b.1.update(i, s.depth))
    } else {
        b
    }
}

/// The buffers after offering all samples, in order, to a fresh frame.
pub open spec fn drawn(samples: Seq<Sample>, width: nat, height: nat) -> Buffers
    decreases samples.len(),
{
    if samples.len() == 0 {
        blank(width, height)
    } else {
        plotted(drawn(samples.drop_last(), width, height), samples.last(), width, height)
    }
}

/// Buffers of the right size whose glyphs are all displayable and whose depths
/// are zero or positive.
pub open spec fn buffers_ok(b: Buffers, width: nat, height: nat) -> bool {
    &&& b.0.len() == width * height
    &&& b.1.len() == width * height
    &&& forall|i: int| 0 <= i < b.0.len() ==> is_glyph(#[trigger] b.0[i])
    &&& forall|i: int| 0 <= i < b.1.len() ==> #[trigger] b.1[i] == 0 || is_positive(b.1[i])
}

/// The screen buffer cut into `height` rows of `width` glyphs.
pub open spec fn rows_of(cells: Seq<u8>, width: nat, height: nat) -> Seq<Seq<u8>> {
    Seq::new(height, |r: int| cells.subrange(r * width, r * width + width))
}

/// The grid that a frame of `width` by `height` cells shows after the samples
/// are drawn: no rows at all when either size is zero.
pub open spec fn picture(samples: Seq<Sample>, width: nat, height: nat) -> Seq<Seq<u8>> {
    if width == 0 || height == 0 {
        Seq::empty()
    } else {
        rows_of(drawn(samples, width, height).0, width, height)
    }
}

pub proof fn lemma_row_start(r: int, width: nat, height: nat)
    requires
        0 <= r < height,
    ensures
        0 <= r * width,
        r * width + width <= width * height,
{
    assert(r * width + width <= width * height) by (nonlinear_arith)
        requires
            0 <= r < height,
    ;
    assert(0 <= r * width) by (nonlinear_arith)
        requires
            0 <= r,
    ;
}

pub proof fn lemma_cell_in_range(column: int, row: int, width: nat, height: nat)
    requires
        0 <= column < width,
        0 <= row < height,
    ensures
        0 <= row * width + column < width * height,
{
    assert(0 <= row * width + column < width * height) by (nonlinear_arith)
        requires
            0 <= column < width,
            0 <= row < height,
    ;
}

/// Offering a sample keeps the buffers well formed.
pub proof fn lemma_plotted_ok(b: Buffers, s: Sample, width: nat, height: nat)
    requires
        buffers_ok(b, width, height),
    ensures
        buffers_ok(plotted(b, s, width, height), width, height),
{
    if in_view(s, width, height) {
        lemma_cell_in_range(s.column as int, s.row as int, width, height);
        let i = cell_index(s, width);
        if is_positive(s.luminance) && nearer(s.depth, b.1[i]) {
            assert(is_glyph(glyph_of(s.luminance)));
        }
    }
}

/// Whatever samples are drawn, every cell holds a displayable glyph and
/// every depth is zero or positive.
pub proof fn lemma_drawn_ok(samples: Seq<Sample>, width: nat, height: nat)
    ensures
        buffers_ok(drawn(samples, width, height), width, height),
    decreases samples.len(),
{
    if samples.len() == 0 {
    } else {
        lemma_drawn_ok(samples.drop_last(), width, height);
        lemma_plotted_ok(drawn(samples.drop_last(), width, height), samples.last(), width, height);
    }
}

/// The screen and depth buffers of one frame.
pub struct Frame {
    width: usize,
    height: usize,
    glyphs: Vec<u8>,
    depths: Vec<u32>,
}

impl Frame {
    pub closed spec fn width_spec(&self) -> nat {
        self.width as nat
    }

    pub closed spec fn height_spec(&self) -> nat {
        self.height as nat
    }

    /// The two buffers, row-major.
    pub closed spec fn buffers(&self) -> Buffers {
        (self.glyphs@, self.depths@)
    }

    /// The buffers match the frame's size, hold displayable glyphs and
    /// non-negative depths.
    pub open spec fn wf(&self) -> bool {
        &&& self.width_spec() * self.height_spec() <= usize::MAX
        &&& buffers_ok(self.buffers(), self.width_spec(), self.height_spec())
    }

    /// A fresh frame: every cell background, every depth zero.
    pub fn new(width: usize, height: usize) -> (f: Frame)
        requires
            width * height <= usize::MAX,
        ensures
            f.wf(),
            f.width_spec() == width,
            f.height_spec() == height,
            f.buffers() == blank(width as nat, height as nat),
    {
        let n: usize = width * height;
        let glyphs: Vec<u8> = vec![BACKGROUND; n];
        let depths: Vec<u32> = vec![0u32; n];
        let f = Frame { width, height, glyphs, depths };
        assert(f.buffers().0 =~= blank(width as nat, height as nat).0);
        assert(f.buffers().1 =~= blank(width as nat, height as nat).1);
        f
    }

    /// Width in cells.
    pub fn width(&self) -> (w: usize)
        ensures
            w == self.width_spec(),
    {
        self.width
    }

    /// Height in cells.
    pub fn height(&self) -> (h: usize)
        ensures
            h == self.height_spec(),
    {
        self.height
    }

    /// Offers one sample to the frame: it is drawn when it falls on screen, is
    /// lit, and is nearer than what its cell holds.
    pub fn plot(&mut self, s: &Sample)
        requires
            old(self).wf(),
        ensures
            final(self).wf(),
            final(self).width_spec() == old(self).width_spec(),
            final(self).height_spec() == old(self).height_spec(),
            final(self).buffers() == plotted(
                old(self).buffers(),
                *s,
                old(self).width_spec(),
                old(self).height_spec(),
            ),
    {
        proof {
            lemma_plotted_ok(self.buffers(), *s, self.width as nat, self.height as nat);
        }
        if s.column >= 0 && s.row >= 0 && (s.column as usize) < self.width && (s.row as usize)
            < self.height {
            let column: usize = s.column as usize;
            let row: usize = s.row as usize;
            proof {
                lemma_cell_in_range(column as int, row as int, self.width as nat, self.height as nat);
            }
            let i: usize = row * self.width + column;
            if s.luminance > 0 && s.luminance <= 0x7f80_0000 && s.depth > 0 && s.depth <= 0x7f80_0000
                && s.depth > self.depths[i] {
                let g: u8 = glyph_for(s.luminance);
                self.glyphs.set(i, g);
                self.depths.set(i, s.depth);
            }
        }
    }

    /// Offers each sample in turn.
    pub fn plot_all(&mut self, samples: &Vec<Sample>)
        requires
            old(self).wf(),
            old(self).buffers() == blank(old(self).width_spec(), old(self).height_spec()),
        ensures
            final(self).wf(),
            final(self).width_spec() == old(self).width_spec(),
            final(self).height_spec() == old(self).height_spec(),
            final(self).buffers() == drawn(samples@, old(self).width_spec(), old(self).height_spec()),
    {
        let ghost w = self.width_spec();
        let ghost h = self.height_spec();
        let mut k: usize = 0;
        while k < samples.len()
            invariant
                k <= samples.len(),
                self.wf(),
                self.width_spec() == w,
                self.height_spec() == h,
                self.buffers() == drawn(samples@.subrange(0, k as int), w, h),
            decreases samples.len() - k,
        {
            proof {
                let next = samples@.subrange(0, k + 1);
                assert(next.drop_last() =~= samples@.subrange(0, k as int));
            }
            self.plot(&samples[k]);
            k = k + 1;
        }
        assert(samples@.subrange(0, k as int) =~= samples@);
    }
}

impl Frame {
    /// The glyph of the cell at `column`, `row`.
    pub fn glyph_at(&self, column: usize, row: usize) -> (g: u8)
        requires
            self.wf(),
            column < self.width_spec(),
            row < self.height_spec(),
        ensures
            g == self.buffers().0[row * self.width_spec() + column],
    {
        proof {
            lemma_cell_in_range(column as int, row as int, self.width as nat, self.height as nat);
        }
        self.glyphs[row * self.width + column]
    }

    /// The screen buffer as `height` rows of `width` glyphs.
    pub fn rows(&self) -> (r: Vec<Vec<u8>>)
        requires
            self.wf(),
        ensures
            r@.len() == self.height_spec(),
            forall|i: int|
                0 <= i < self.height_spec() ==> (#[trigger] r@[i])@ == rows_of(
                    self.buffers().0,
                    self.width_spec(),
                    self.height_spec(),
                )[i],
    {
        let ghost cells = self.glyphs@;
        let ghost w = self.width as nat;
        let ghost h = self.height as nat;
        let mut r: Vec<Vec<u8>> = Vec::new();
        let mut y: usize = 0;
        while y < self.height
            invariant
                self.wf(),
                cells == self.glyphs@,
                w == self.width,
                h == self.height,
                y <= h,
                r@.len() == y,
                forall|i: int| 0 <= i < y ==> (#[trigger] r@[i])@ == rows_of(cells, w, h)[i],
            decreases h - y,
        {
            proof {
                lemma_row_start(y as int, w, h);
            }
            let start: usize = y * self.width;
            let mut line: Vec<u8> = Vec::new();
            let mut x: usize = 0;
            while x < self.width
                invariant
                    self.wf(),
                    cells == self.glyphs@,
                    w == self.width,
                    h == self.height,
                    y < h,
                    start == y * w,
                    start + w <= w * h,
                    x <= w,
                    line@ == cells.subrange(start as int, start + x),
                decreases w - x,
            {
                line.push(self.glyphs[start + x]);
                x = x + 1;
                assert(line@ =~= cells.subrange(start as int, start + x));
            }
            r.push(line);
            y = y + 1;
        }
        r
    }
}

/// Draws the samples, in order, on a fresh `width` by `height` frame and
/// returns its grid: `height` rows of `width` glyphs, or no rows at all when
/// either size is zero.
pub fn render(samples: &Vec<Sample>, width: usize, height: usize) -> (grid: Vec<Vec<u8>>)
    requires
        width * height <= usize::MAX,
    ensures
        grid@.len() == picture(samples@, width as nat, height as nat).len(),
        forall|i: int|
            0 <= i < grid@.len() ==> (#[trigger] grid@[i])@ == picture(
                samples@,
                width as nat,
                height as nat,
            )[i],
        width == 0 || height == 0 ==> grid@.len() == 0,
        width > 0 && height > 0 ==> grid@.len() == height,
        forall|i: int| 0 <= i < grid@.len() ==> (#[trigger] grid@[i])@.len() == width,
        forall|i: int, j: int|
            0 <= i < grid@.len() && 0 <= j < width ==> is_glyph(#[trigger] grid@[i]@[j]),
{
    if width == 0 || height == 0 {
        return Vec::new();
    }
    let mut f = Frame::new(width, height);
    f.plot_all(samples);
    let grid = f.rows();
    proof {
        let w = width as nat;
        let h = height as nat;
        let cells = drawn(samples@, w, h).0;
        assert forall|i: int| 0 <= i < grid@.len() implies (#[trigger] grid@[i])@.len()
            == width by {
            lemma_row_start(i, w, h);
        }
        assert forall|i: int, j: int| 0 <= i < grid@.len() && 0 <= j < width implies is_glyph(
            #[trigger] grid@[i]@[j],
        ) by {
            lemma_row_start(i, w, h);
            assert(grid@[i]@[j] == cells[i * w + j]);
        }
    }
    grid
}

/// The cursor-home control sequence, `ESC [ H`.
pub open spec fn home() -> Seq<u8> {
    seq![0x1bu8, 0x5bu8, 0x48u8]
}

/// What is written to the terminal for one frame: the cursor moved home, then
/// each row followed by a line feed.
pub open spec fn screen_text(grid: Seq<Seq<u8>>) -> Seq<u8>
    decreases grid.len(),
{
    if grid.len() == 0 {
        home()
    } else {
        screen_text(grid.drop_last()) + grid.last() + seq![0x0au8]
    }
}

/// The bytes that put a rendered grid on the terminal, over the previous frame.
pub fn screen_bytes(grid: &Vec<Vec<u8>>) -> (out: Vec<u8>)
    ensures
        out@ == screen_text(grid@.map_values(|row: Vec<u8>| row@)),
{
    let ghost rows = grid@.map_values(|row: Vec<u8>| row@);
    let mut out: Vec<u8> = Vec::new();
    out.push(0x1b);
    out.push(0x5b);
    out.push(0x48);
    assert(out@ =~= screen_text(rows.subrange(0, 0)));
    let mut y: usize = 0;
    while y < grid.len()
        invariant
            rows == grid@.map_values(|row: Vec<u8>| row@),
            y <= grid@.len(),
            out@ == screen_text(rows.subrange(0, y as int)),
        decreases grid@.len() - y,
    {
        let line: &Vec<u8> = &grid[y];
        let ghost before = out@;
        let mut x: usize = 0;
        while x < line.len()
            invariant
                x <= line@.len(),
                out@ == before + line@.subrange(0, x as int),
            decreases line@.len() - x,
        {
            out.push(line[x]);
            x = x + 1;
            assert(out@ =~= before + line@.subrange(0, x as int));
        }
        out.push(0x0a);
        proof {
            let next = rows.subrange(0, y + 1);
            assert(next.drop_last() =~= rows.subrange(0, y as int));
            assert(line@.subrange(0, x as int) =~= line@);
        }
        y = y + 1;
    }
    assert(rows.subrange(0, y as int) =~= rows);
    out
}

} // verus!
