//! The raster data model: a `Frame` is an immutable width x height grid of
//! colors, and a `FrameData` describes one frame relative to its predecessor
//! (no change, a sparse pixel list, or a full raster). Applying a `FrameData`
//! to a `Frame` yields the successor raster.

use crate::color::Color;
use crate::pixel::Pixel;
use vstd::prelude::*;

verus! {

/// The mathematical value of a `Frame`: its dimensions and the flat,
/// row-major sequence of its colors.
#[verifier::ext_equal]
pub ghost struct FrameView {
    pub width: int,
    pub height: int,
    pub data: Seq<Color>,
}

/// The mathematical value of a `FrameData`.
#[verifier::ext_equal]
pub ghost enum FrameDataView {
    Delta { pixels: Seq<Pixel> },
    Full { width: int, height: int, data: Seq<Color> },
    Empty,
}

/// The flat row-major index a pixel writes to, in a raster of width `width`.
pub open spec fn pixel_index(p: Pixel, width: int) -> int {
    p.y * width + p.x
}

/// The color of the last pixel in `ps` that writes flat index `j`, if any.
/// Later entries of a delta win over earlier ones.
pub open spec fn last_write(ps: Seq<Pixel>, width: int, j: int) -> Option<Color>
    decreases ps.len(),
{
    if ps.len() == 0 {
        None
    } else if pixel_index(ps.last(), width) == j {
        Some(ps.last().color)
    } else {
        last_write(ps.drop_last(), width, j)
    }
}

/// The color at flat index `j` after applying the delta `ps` over `data`.
pub open spec fn applied_color(data: Seq<Color>, width: int, ps: Seq<Pixel>, j: int) -> Color {
    match last_write(ps, width, j) {
        Some(c) => c,
        None => data[j],
    }
}

impl FrameView {
    /// Well-formedness: the flat data holds exactly width * height colors.
    pub open spec fn wf(self) -> bool {
        &&& 0 <= self.width
        &&& 0 <= self.height
        &&& self.data.len() == self.width * self.height
    }

    /// Whether a pixel's position lies inside this raster.
    pub open spec fn in_range(self, p: Pixel) -> bool {
        p.x < self.width && p.y < self.height
    }

    /// Whether every pixel of a delta lies inside this raster.
    pub open spec fn all_in_range(self, ps: Seq<Pixel>) -> bool {
        forall|i: int| 0 <= i < ps.len() ==> self.in_range(#[trigger] ps[i])
    }

    /// The raster after overwriting the listed positions, later entries
    /// winning; all other positions keep their color.
    pub open spec fn apply_pixels(self, ps: Seq<Pixel>) -> FrameView {
        FrameView {
            width: self.width,
            height: self.height,
            data: Seq::new(self.data.len(), |j: int| applied_color(self.data, self.width, ps, j)),
        }
    }

    /// The raster after applying a frame update: `Empty` changes nothing,
    /// `Full` replaces everything, `Delta` overwrites the listed positions.
    pub open spec fn apply(self, fd: FrameDataView) -> FrameView {
        match fd {
            FrameDataView::Empty => self,
            FrameDataView::Full { width, height, data } => FrameView { width, height, data },
            FrameDataView::Delta { pixels } => self.apply_pixels(pixels),
        }
    }

    /// The full update that snapshots this raster.
    pub open spec fn snapshot(self) -> FrameDataView {
        FrameDataView::Full { width: self.width, height: self.height, data: self.data }
    }

    /// Whether a frame update may be applied to this raster without touching
    /// positions outside it.
    pub open spec fn accepts(self, fd: FrameDataView) -> bool {
        match fd {
            FrameDataView::Empty => true,
            FrameDataView::Full { width, height, data } => {
                0 <= width && 0 <= height && data.len() == width * height
            },
            FrameDataView::Delta { pixels } => self.all_in_range(pixels),
        }
    }
}

/// Applying a raster's own snapshot reproduces the raster exactly.
pub proof fn lemma_apply_snapshot(f: FrameView)
    requires
        f.wf(),
    ensures
        f.apply(f.snapshot()) == f,
{
    assert(f.apply(f.snapshot()) =~= f);
}

/// Applying the empty update changes nothing.
pub proof fn lemma_apply_empty(f: FrameView)
    ensures
        f.apply(FrameDataView::Empty) == f,
{
}

/// Re-applying the same delta is idempotent: the second application finds
/// every listed position already holding its final color.
pub proof fn lemma_apply_delta_idempotent(f: FrameView, ps: Seq<Pixel>)
    requires
        f.wf(),
    ensures
        f.apply_pixels(ps).apply_pixels(ps) == f.apply_pixels(ps),
{
    let once = f.apply_pixels(ps);
    let twice = once.apply_pixels(ps);
    assert forall|j: int| 0 <= j < twice.data.len() implies twice.data[j] == once.data[j] by {
        match last_write(ps, f.width, j) {
            Some(c) => {},
            None => {},
        }
    }
    assert(twice =~= once);
}

/// A raster: an immutable grid of colors, one per video frame.
#[derive(Debug, Clone, PartialEq)]
pub struct Frame {
    width: usize,
    height: usize,
    data: Vec<Color>,
}

/// One frame relative to its predecessor: a sparse list of changed pixels, a
/// full raster, or no change at all.
#[derive(Debug, Clone, PartialEq)]
pub enum FrameData {
    Delta(Vec<Pixel>),
    Full { width: u16, height: u16, data: Vec<Color> },
    Empty,
}

impl View for Frame {
    type V = FrameView;

    closed spec fn view(&self) -> FrameView {
        FrameView {
            width: self.width as int,
            height: self.height as int,
            data: self.data@,
        }
    }
}

impl View for FrameData {
    type V = FrameDataView;

    open spec fn view(&self) -> FrameDataView {
        match self {
            FrameData::Delta(ps) => FrameDataView::Delta { pixels: ps@ },
            FrameData::Full { width, height, data } => FrameDataView::Full {
                width: *width as int,
                height: *height as int,
                data: data@,
            },
            FrameData::Empty => FrameDataView::Empty,
        }
    }
}

impl Frame {
    /// Builds a raster from explicit parts.
    pub fn new(width: usize, height: usize, data: Vec<Color>) -> (f: Frame)
        requires
            data@.len() == width * height,
        ensures
            f@ == (FrameView { width: width as int, height: height as int, data: data@ }),
            f@.wf(),
    {
        Frame { width, height, data }
    }

    /// A neutral-gray raster, used as the backdrop of debug output.
    pub fn debug(width: usize, height: usize) -> (f: Frame)
        requires
            width * height <= usize::MAX,
        ensures
            f@.wf(),
            f@.width == width as int,
            f@.height == height as int,
            forall|j: int|
                0 <= j < f@.data.len() ==> f@.data[j] == (Color { r: 128, g: 128, b: 128 }),
    {
        let n = width * height;
        let mut data: Vec<Color> = Vec::new();
        let mut i: usize = 0;
        while i < n
            invariant
                i <= n,
                data@.len() == i as int,
                forall|j: int|
                    0 <= j < i as int ==> data@[j] == (Color { r: 128, g: 128, b: 128 }),
            decreases n - i,
        {
            data.push(Color { r: 128, g: 128, b: 128 });
            i = i + 1;
        }
        Frame { width, height, data }
    }

    /// An identical copy of this raster.
    pub fn duplicate(&self) -> (r: Frame)
        ensures
            r@ == self@,
    {
        let mut data: Vec<Color> = Vec::new();
        let mut i: usize = 0;
        while i < self.data.len()
            invariant
                i <= self.data@.len(),
                data@ == self.data@.take(i as int),
            decreases self.data@.len() - i,
        {
            data.push(self.data[i]);
            proof {
                assert(data@ =~= self.data@.take(i + 1));
            }
            i = i + 1;
        }
        proof {
            assert(self.data@.take(self.data@.len() as int) =~= self.data@);
        }
        let r = Frame { width: self.width, height: self.height, data };
        proof {
            assert(r@ =~= self@);
        }
        r
    }

    /// A raster's data always fits the machine: it lives in one vector.
    pub proof fn lemma_len_bound(&self)
        ensures
            self@.data.len() <= usize::MAX,
    {
        assert(self.data.len() == self@.data.len());
    }

    pub fn width(&self) -> (w: usize)
        ensures
            w as int == self@.width,
    {
        self.width
    }

    pub fn height(&self) -> (h: usize)
        ensures
            h as int == self@.height,
    {
        self.height
    }

    pub fn data(&self) -> (d: &Vec<Color>)
        ensures
            d@ == self@.data,
    {
        &self.data
    }

    pub fn data_mut(&mut self) -> (d: &mut Vec<Color>)
        ensures
            d@ == old(self)@.data,
            final(self)@.width == old(self)@.width,
            final(self)@.height == old(self)@.height,
            final(self)@.data == final(d)@,
    {
        &mut self.data
    }

    /// The full update that snapshots this raster, for the wire.
    pub fn to_full_frame_data(&self) -> (fd: FrameData)
        requires
            self@.width <= u16::MAX,
            self@.height <= u16::MAX,
        ensures
            fd@ == self@.snapshot(),
    {
        FrameData::Full {
            width: self.width as u16,
            height: self.height as u16,
            data: self.duplicate().data,
        }
    }

    /// Overwrites the listed pixel positions with their new colors, leaving
    /// every other position untouched; later entries of the list win.
    pub fn apply_pixels(&self, pixels: &Vec<Pixel>) -> (r: Frame)
        requires
            self@.wf(),
            self@.all_in_range(pixels@),
        ensures
            r@ == self@.apply_pixels(pixels@),
            r@.wf(),
    {
        let mut data = self.duplicate().data;
        let mut i: usize = 0;
        while i < pixels.len()
            invariant
                i <= pixels@.len(),
                self@.wf(),
                self@.all_in_range(pixels@),
                data@.len() == self@.data.len(),
                forall|j: int|
                    0 <= j < data@.len() ==> data@[j] == applied_color(
                        self@.data,
                        self@.width,
                        pixels@.take(i as int),
                        j,
                    ),
            decreases pixels@.len() - i,
        {
            let p = pixels[i];
            proof {
                lemma_pixel_index_in_range(self@, p);
                assert(data.len() == data@.len());
            }
            let ghost pre = data@;
            let idx = p.y * self.width + p.x;
            data.set(idx, p.color);
            proof {
                let taken = pixels@.take(i + 1);
                assert(data@ == pre.update(idx as int, p.color));
                assert(taken.drop_last() =~= pixels@.take(i as int));
                assert(taken.last() == pixels@[i as int]);
                assert forall|j: int| 0 <= j < data@.len() implies data@[j] == applied_color(
                    self@.data,
                    self@.width,
                    taken,
                    j,
                ) by {
                    if pixel_index(p, self@.width) == j {
                        assert(last_write(taken, self@.width, j) == Some(p.color));
                    } else {
                        assert(last_write(taken, self@.width, j) == last_write(
                            pixels@.take(i as int),
                            self@.width,
                            j,
                        ));
                    }
                }
            }
            i = i + 1;
        }
        proof {
            assert(pixels@.take(pixels@.len() as int) =~= pixels@);
        }
        let r = Frame { width: self.width, height: self.height, data };
        proof {
            assert(r@ =~= self@.apply_pixels(pixels@));
        }
        r
    }

    /// Produces the successor raster of this one under a frame update.
    pub fn apply_frame_data(&self, fd: &FrameData) -> (r: Frame)
        requires
            self@.wf(),
            self@.accepts(fd@),
        ensures
            r@ == self@.apply(fd@),
            r@.wf(),
    {
        match fd {
            FrameData::Delta(ps) => self.apply_pixels(ps),
            FrameData::Full { width, height, data } => {
                let w = *width as usize;
                let h = *height as usize;
                let r = Frame { width: w, height: h, data: clone_colors(data) };
                proof {
                    assert(r@ =~= self@.apply(fd@));
                }
                r
            },
            FrameData::Empty => self.duplicate(),
        }
    }

    /// Flattens the raster into one pixel update per position, in row-major
    /// scan order.
    pub fn to_pixels(&self) -> (r: Vec<Pixel>)
        requires
            self@.wf(),
        ensures
            r@.len() == self@.data.len(),
            forall|i: int|
                0 <= i < r@.len() ==> r@[i] == (Pixel {
                    x: (i % self@.width) as usize,
                    y: (i / self@.width) as usize,
                    color: self@.data[i],
                }),
    {
        grid_pixels(&self.data, self.width, self.height)
    }
}

/// The flat index of an in-range pixel lies inside the raster's data.
proof fn lemma_pixel_index_in_range(f: FrameView, p: Pixel)
    requires
        f.wf(),
        f.in_range(p),
    ensures
        0 <= pixel_index(p, f.width) < f.data.len(),
{
    assert(p.y * f.width + p.x < f.height * f.width) by (nonlinear_arith)
        requires
            0 <= p.x < f.width,
            0 <= p.y < f.height,
    ;
    assert(f.height * f.width == f.width * f.height) by (nonlinear_arith);
}

/// Copies a color vector element by element.
fn clone_colors(data: &Vec<Color>) -> (r: Vec<Color>)
    ensures
        r@ == data@,
{
    let mut r: Vec<Color> = Vec::new();
    let mut i: usize = 0;
    while i < data.len()
        invariant
            i <= data@.len(),
            r@ == data@.take(i as int),
        decreases data@.len() - i,
    {
        r.push(data[i]);
        proof {
            assert(r@ =~= data@.take(i + 1));
        }
        i = i + 1;
    }
    proof {
        assert(data@.take(data@.len() as int) =~= data@);
    }
    r
}

/// Enumerates a width x height grid of colors as pixels in row-major order.
fn grid_pixels(data: &Vec<Color>, width: usize, height: usize) -> (r: Vec<Pixel>)
    requires
        data@.len() == width * height,
    ensures
        r@.len() == data@.len(),
        forall|i: int|
            0 <= i < r@.len() ==> r@[i] == (Pixel {
                x: (i % width as int) as usize,
                y: (i / width as int) as usize,
                color: data@[i],
            }),
{
    let mut r: Vec<Pixel> = Vec::new();
    let mut i: usize = 0;
    while i < data.len()
        invariant
            i <= data@.len(),
            data@.len() == width * height,
            r@.len() == i as int,
            forall|j: int|
                0 <= j < i as int ==> r@[j] == (Pixel {
                    x: (j % width as int) as usize,
                    y: (j / width as int) as usize,
                    color: data@[j],
                }),
        decreases data@.len() - i,
    {
        proof {
            assert(width > 0) by {
                if width == 0 {
                    assert(width * height == 0) by (nonlinear_arith)
                        requires
                            width == 0,
                    ;
                }
            }
        }
        let x = i % width;
        let y = i / width;
        r.push(Pixel { x, y, color: data[i] });
        i = i + 1;
    }
    r
}

/// The largest x position in a delta, or zero when it is empty.
pub open spec fn max_x(ps: Seq<Pixel>) -> int
    decreases ps.len(),
{
    if ps.len() == 0 {
        0
    } else if ps.last().x >= max_x(ps.drop_last()) {
        ps.last().x as int
    } else {
        max_x(ps.drop_last())
    }
}

/// The largest y position in a delta, or zero when it is empty.
pub open spec fn max_y(ps: Seq<Pixel>) -> int
    decreases ps.len(),
{
    if ps.len() == 0 {
        0
    } else if ps.last().y >= max_y(ps.drop_last()) {
        ps.last().y as int
    } else {
        max_y(ps.drop_last())
    }
}

/// The raster a frame update denotes on its own: a full update is taken as
/// is, the empty update denotes an empty raster, and a delta is laid over a
/// neutral-gray raster just large enough to hold its positions.
pub open spec fn frame_of_data(fd: FrameDataView) -> FrameView {
    match fd {
        FrameDataView::Full { width, height, data } => FrameView { width, height, data },
        FrameDataView::Empty => FrameView { width: 0, height: 0, data: Seq::empty() },
        FrameDataView::Delta { pixels } => {
            let width = max_x(pixels) + 1;
            let height = max_y(pixels) + 1;
            let gray = Seq::new(
                (width * height) as nat,
                |j: int| Color { r: 128, g: 128, b: 128 },
            );
            FrameView {
                width,
                height,
                data: Seq::new(
                    gray.len(),
                    |j: int| applied_color(gray, width, pixels, j),
                ),
            }
        },
    }
}

impl Frame {
    /// Builds a standalone raster from one frame update, as `frame_of_data`
    /// lays it out.
    pub fn from_frame_data(value: FrameData) -> (r: Frame)
        requires
            value@ matches FrameDataView::Delta { pixels } ==> (max_x(pixels) + 1) * (max_y(pixels)
                + 1) <= usize::MAX,
        ensures
            r@ == frame_of_data(value@),
    {
        match value {
            FrameData::Full { width, height, data } => {
                let r = Frame { width: width as usize, height: height as usize, data };
                proof {
                    assert(r@ =~= frame_of_data(value@));
                }
                r
            },
            FrameData::Empty => {
                let r = Frame { width: 0, height: 0, data: Vec::new() };
                proof {
                    assert(r@ =~= frame_of_data(value@));
                }
                r
            },
            FrameData::Delta(ps) => {
                let ghost psv = ps@;
                let n = ps.len();
                let mut mx: usize = 0;
                let mut my: usize = 0;
                let mut i: usize = 0;
                proof {
                    assert(psv.take(0) =~= Seq::<Pixel>::empty());
                }
                while i < n
                    invariant
                        i <= n,
                        n == psv.len(),
                        psv == ps@,
                        mx as int == max_x(psv.take(i as int)),
                        my as int == max_y(psv.take(i as int)),
                    decreases n - i,
                {
                    let p = ps[i];
                    proof {
                        assert(psv.take(i + 1).drop_last() =~= psv.take(i as int));
                        assert(psv.take(i + 1).last() == psv[i as int]);
                    }
                    if p.x > mx {
                        mx = p.x;
                    }
                    if p.y > my {
                        my = p.y;
                    }
                    i = i + 1;
                }
                proof {
                    assert(psv.take(n as int) =~= psv);
                    assert(mx as int + 1 <= (mx as int + 1) * (my as int + 1)) by (nonlinear_arith)
                        requires
                            mx as int >= 0,
                            my as int >= 0,
                    ;
                    assert(my as int + 1 <= (mx as int + 1) * (my as int + 1)) by (nonlinear_arith)
                        requires
                            mx as int >= 0,
                            my as int >= 0,
                    ;
                }
                let width = mx + 1;
                let height = my + 1;
                let canvas = Frame::debug(width, height);
                proof {
                    assert forall|j: int| 0 <= j < psv.len() implies canvas@.in_range(
                        #[trigger] psv[j],
                    ) by {
                        lemma_max_bounds(psv, j);
                    }
                    assert(canvas@.data =~= Seq::new(
                        ((mx + 1) * (my + 1)) as nat,
                        |j: int| Color { r: 128, g: 128, b: 128 },
                    ));
                }
                let r = canvas.apply_pixels(&ps);
                proof {
                    assert(r@ =~= frame_of_data(value@));
                }
                r
            },
        }
    }
}

/// Every position of a delta lies within its own maxima.
proof fn lemma_max_bounds(ps: Seq<Pixel>, j: int)
    requires
        0 <= j < ps.len(),
    ensures
        ps[j].x <= max_x(ps),
        ps[j].y <= max_y(ps),
    decreases ps.len(),
{
    if j == ps.len() - 1 {
    } else {
        assert(ps.drop_last()[j] == ps[j]);
        lemma_max_bounds(ps.drop_last(), j);
    }
}

impl FrameData {
    /// Flattens a frame update into its pixel updates: none for `Empty`, the
    /// listed set for `Delta`, and the whole grid for `Full`.
    pub fn to_pixels(self) -> (r: Vec<Pixel>)
        requires
            self@ matches FrameDataView::Full { width, height, data } ==> data.len() == width
                * height,
        ensures
            match self@ {
                FrameDataView::Empty => r@.len() == 0,
                FrameDataView::Delta { pixels } => r@ == pixels,
                FrameDataView::Full { width, height, data } => {
                    &&& r@.len() == data.len()
                    &&& forall|i: int|
                        0 <= i < r@.len() ==> r@[i] == (Pixel {
                            x: (i % width) as usize,
                            y: (i / width) as usize,
                            color: data[i],
                        })
                },
            },
    {
        match self {
            FrameData::Delta(ps) => ps,
            FrameData::Full { width, height, data } => {
                grid_pixels(&data, width as usize, height as usize)
            },
            FrameData::Empty => Vec::new(),
        }
    }
}

} // verus!
