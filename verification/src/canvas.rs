//! The canvas: a packed RGB image that is filled pixel by pixel in row-major
//! order, and the cursor that marks how far it has been filled.

use vstd::prelude::*;

verus! {

/// One pixel's colour: red, green, blue.
pub type Rgb = (u8, u8, u8);

/// The place of the pixel in column `x` of row `y` in the row-major order
/// of an image `width` pixels wide.
pub open spec fn place(width: int, x: int, y: int) -> int {
    y * width + x
}

/// What a canvas is to its contracts: the size of the image, the cursor (the
/// next pixel to fill, or `(width, height)` once the image is full) and the
/// image's bytes, three to a pixel, row after row.
pub struct CanvasState {
    pub width: int,
    pub height: int,
    pub x: int,
    pub y: int,
    pub bytes: Seq<u8>,
}

impl CanvasState {
    /// The image is not empty, holds three bytes for each pixel, and the
    /// cursor is on a pixel or at `(width, height)`.
    pub open spec fn wf(self) -> bool {
        &&& 0 < self.width
        &&& 0 < self.height
        &&& self.bytes.len() == 3 * (self.width * self.height)
        &&& {
            ||| 0 <= self.x < self.width && 0 <= self.y < self.height
            ||| self.complete()
        }
    }

    /// Every pixel has been filled.
    pub open spec fn complete(self) -> bool {
        self.x == self.width && self.y == self.height
    }

    /// The number of pixels filled so far: those before the cursor in
    /// row-major order.
    pub open spec fn filled(self) -> int {
        if self.complete() {
            self.width * self.height
        } else {
            place(self.width, self.x, self.y)
        }
    }

    /// The colour held at the given place of the row-major order.
    pub open spec fn at_place(self, place: int) -> Rgb {
        (self.bytes[3 * place], self.bytes[3 * place + 1], self.bytes[3 * place + 2])
    }

    /// The colour held for the pixel in column `x` of row `y`.
    pub open spec fn pixel(self, x: int, y: int) -> Rgb {
        self.at_place(place(self.width, x, y))
    }

    /// The canvas after `rgb` has been stored at the cursor: the three bytes of
    /// that pixel are replaced and the cursor moves to the next pixel of the
    /// row, to the start of the next row, or, after the last pixel, to
    /// `(width, height)`.
    pub open spec fn store(self, rgb: Rgb) -> CanvasState {
        let at = 3 * place(self.width, self.x, self.y);
        let bytes = self.bytes.update(at, rgb.0).update(at + 1, rgb.1).update(at + 2, rgb.2);
        if self.x + 1 < self.width {
            CanvasState { x: self.x + 1, bytes, ..self }
        } else if self.y + 1 < self.height {
            CanvasState { x: 0, y: self.y + 1, bytes, ..self }
        } else {
            CanvasState { x: self.width, y: self.height, bytes, ..self }
        }
    }

    /// The canvas after the colours of `got` have been stored one after the
    /// other, the first of them first.
    pub open spec fn store_all(self, got: Seq<Rgb>) -> CanvasState
        decreases got.len(),
    {
        if got.len() == 0 {
            self
        } else {
            self.store_all(got.drop_last()).store(got.last())
        }
    }
}

/// A pixel of a `width` by `height` image has its place among the
/// `width * height` places of the row-major order.
pub proof fn lemma_place_in_range(width: int, height: int, x: int, y: int)
    requires
        0 <= x < width,
        0 <= y < height,
    ensures
        0 <= y * width <= place(width, x, y) < width * height,
        (y + 1) * width == y * width + width,
        (y + 1) * width <= width * height,
{
    assert(0 <= y * width) by (nonlinear_arith)
        requires
            0 <= y,
            0 < width,
    ;
    assert((y + 1) * width == y * width + width) by (nonlinear_arith);
    assert((y + 1) * width <= height * width) by (nonlinear_arith)
        requires
            y + 1 <= height,
            0 < width,
    ;
    assert(height * width == width * height) by (nonlinear_arith);
}

/// No two pixels of an image share a place in the row-major order.
pub proof fn lemma_place_is_one_to_one(width: int, x: int, y: int, u: int, v: int)
    requires
        0 <= x < width,
        0 <= u < width,
        0 <= y,
        0 <= v,
        place(width, x, y) == place(width, u, v),
    ensures
        x == u,
        y == v,
{
    if y < v {
        assert(v * width >= (y + 1) * width) by (nonlinear_arith)
            requires
                y + 1 <= v,
                0 < width,
        ;
        assert((y + 1) * width == y * width + width) by (nonlinear_arith);
    } else if v < y {
        assert(y * width >= (v + 1) * width) by (nonlinear_arith)
            requires
                v + 1 <= y,
                0 < width,
        ;
        assert((v + 1) * width == v * width + width) by (nonlinear_arith);
    }
}

/// The number of pixels filled lies between zero and the size of the image,
/// and reaches the size exactly when the image is full.
pub proof fn lemma_filled_bounds(canvas: CanvasState)
    requires
        canvas.wf(),
    ensures
        0 <= canvas.filled() <= canvas.width * canvas.height,
        canvas.complete() <==> canvas.filled() == canvas.width * canvas.height,
{
    if !canvas.complete() {
        lemma_place_in_range(canvas.width, canvas.height, canvas.x, canvas.y);
    } else {
        assert(0 <= canvas.width * canvas.height) by (nonlinear_arith)
            requires
                0 < canvas.width,
                0 < canvas.height,
        ;
    }
}

/// Storing a colour fills exactly one pixel, the one under the cursor, and
/// moves the cursor one place on in row-major order: the canvas stays well
/// formed, one more pixel is filled, the pixel that was under the cursor
/// holds the colour, and no byte of any other pixel changes.
pub proof fn lemma_store_fills_one(canvas: CanvasState, rgb: Rgb)
    requires
        canvas.wf(),
        !canvas.complete(),
    ensures
        canvas.store(rgb).wf(),
        canvas.store(rgb).width == canvas.width,
        canvas.store(rgb).height == canvas.height,
        canvas.store(rgb).filled() == canvas.filled() + 1,
        canvas.store(rgb).pixel(canvas.x, canvas.y) == rgb,
        canvas.store(rgb).at_place(canvas.filled()) == rgb,
        forall|i: int|
            0 <= i < canvas.bytes.len() && !(3 * canvas.filled() <= i < 3 * canvas.filled() + 3)
                ==> canvas.store(rgb).bytes[i] == canvas.bytes[i],
{
    lemma_place_in_range(canvas.width, canvas.height, canvas.x, canvas.y);
    let next = canvas.store(rgb);
    if canvas.x + 1 < canvas.width {
        assert(!next.complete());
        assert(next.filled() == canvas.y * canvas.width + (canvas.x + 1));
    } else if canvas.y + 1 < canvas.height {
        lemma_place_in_range(canvas.width, canvas.height, 0, canvas.y + 1);
        assert(!next.complete());
        assert(next.filled() == (canvas.y + 1) * canvas.width + 0);
    } else {
        assert(next.complete());
        assert(canvas.width * canvas.height == canvas.y * canvas.width + canvas.x + 1)
            by (nonlinear_arith)
            requires
                canvas.y + 1 == canvas.height,
                canvas.x + 1 == canvas.width,
        ;
    }
}

/// Storing a run of colours fills as many pixels, in row-major order from
/// the cursor on: the canvas stays well formed, the colour in place `j` of
/// the run is held at place `filled + j` of the image, and no byte of any
/// pixel before the old cursor or from the new cursor on changes.
pub proof fn lemma_store_all_fills_in_order(canvas: CanvasState, got: Seq<Rgb>)
    requires
        canvas.wf(),
        canvas.filled() + got.len() <= canvas.width * canvas.height,
    ensures
        canvas.store_all(got).wf(),
        canvas.store_all(got).width == canvas.width,
        canvas.store_all(got).height == canvas.height,
        canvas.store_all(got).filled() == canvas.filled() + got.len(),
        forall|j: int|
            0 <= j < got.len() ==> canvas.store_all(got).at_place(canvas.filled() + j)
                == #[trigger] got[j],
        forall|i: int|
            0 <= i < 3 * canvas.filled() || 3 * canvas.store_all(got).filled() <= i
                < canvas.bytes.len() ==> canvas.store_all(got).bytes[i] == canvas.bytes[i],
    decreases got.len(),
{
    if got.len() > 0 {
        let head = got.drop_last();
        let mid = canvas.store_all(head);
        let end = canvas.store_all(got);
        lemma_store_all_fills_in_order(canvas, head);
        lemma_filled_bounds(canvas);
        lemma_filled_bounds(mid);
        lemma_store_fills_one(mid, got.last());
        assert(end == mid.store(got.last()));
        assert forall|j: int| 0 <= j < got.len() implies end.at_place(canvas.filled() + j)
            == #[trigger] got[j] by {
            if j < head.len() {
                assert(head[j] == got[j]);
                assert(mid.at_place(canvas.filled() + j) == head[j]);
                let place = canvas.filled() + j;
                assert(end.bytes[3 * place] == mid.bytes[3 * place]);
                assert(end.bytes[3 * place + 1] == mid.bytes[3 * place + 1]);
                assert(end.bytes[3 * place + 2] == mid.bytes[3 * place + 2]);
            }
        }
        assert forall|i: int|
            0 <= i < 3 * canvas.filled() || 3 * end.filled() <= i
                < canvas.bytes.len() implies end.bytes[i] == canvas.bytes[i] by {
            assert(end.bytes[i] == mid.bytes[i]);
        }
    }
}

/// Filling in two pulls gives what filling in one pull gives: storing the run
/// `first` and then the run `second` is storing the two runs joined. What the
/// first pull stored is where the second begins, and the second stores
/// nothing before that.
pub proof fn lemma_store_all_resumes(canvas: CanvasState, first: Seq<Rgb>, second: Seq<Rgb>)
    ensures
        canvas.store_all(first).store_all(second) == canvas.store_all(first + second),
    decreases second.len(),
{
    if second.len() == 0 {
        assert(first + second =~= first);
    } else {
        lemma_store_all_resumes(canvas, first, second.drop_last());
        assert((first + second).drop_last() =~= first + second.drop_last());
        assert((first + second).last() == second.last());
    }
}

/// A full canvas takes no more colours: a run that can be stored in it is
/// empty, and storing it changes nothing.
pub proof fn lemma_full_canvas_takes_nothing(canvas: CanvasState, got: Seq<Rgb>)
    requires
        canvas.wf(),
        canvas.complete(),
        canvas.filled() + got.len() <= canvas.width * canvas.height,
    ensures
        got.len() == 0,
        canvas.store_all(got) == canvas,
{
}

/// `got` is what a fill took from `receive`, in the order of taking, on the
/// way from `before` to `after`: `receive` gave each colour of `got`, they
/// were stored one after the other, and unless that filled the image,
/// `receive` then gave `None`.
pub open spec fn is_fill<R: Fn() -> Option<Rgb>>(
    before: CanvasState,
    receive: R,
    got: Seq<Rgb>,
    after: CanvasState,
) -> bool {
    &&& before.filled() + got.len() <= before.width * before.height
    &&& after == before.store_all(got)
    &&& forall|j: int|
        0 <= j < got.len() ==> call_ensures(receive, (), Some(#[trigger] got[j]))
    &&& !after.complete() ==> call_ensures(receive, (), None::<Rgb>)
}

/// A `width` by `height` image as far as it has been filled, and the cursor
/// at which the next colour goes.
pub struct Canvas {
    width: i32,
    height: i32,
    xpos: i32,
    ypos: i32,
    image: Vec<u8>,
}

impl View for Canvas {
    type V = CanvasState;

    closed spec fn view(&self) -> CanvasState {
        CanvasState {
            width: self.width as int,
            height: self.height as int,
            x: self.xpos as int,
            y: self.ypos as int,
            bytes: self.image@,
        }
    }
}

impl Canvas {
    /// A canvas of the given size, all bytes zero, with the cursor on the
    /// first pixel.
    pub fn new(width: i32, height: i32) -> (made: Canvas)
        requires
            width > 0,
            height > 0,
            3 * (width * height) <= isize::MAX,
        ensures
            made@.wf(),
            made@.width == width,
            made@.height == height,
            made@.x == 0,
            made@.y == 0,
            made@.bytes == Seq::new((3 * (width * height)) as nat, |i: int| 0u8),
    {
        proof {
            lemma_place_in_range(width as int, height as int, 0, 0);
        }
        let pixels: usize = (width as usize) * (height as usize);
        let image: Vec<u8> = vec![0u8; 3 * pixels];
        let made = Canvas { width, height, xpos: 0, ypos: 0, image };
        assert(made@.bytes =~= Seq::new((3 * (width * height)) as nat, |i: int| 0u8));
        made
    }

    /// The image's width in pixels.
    pub fn width(&self) -> (w: i32)
        ensures
            w == self@.width,
    {
        self.width
    }

    /// The image's height in pixels.
    pub fn height(&self) -> (h: i32)
        ensures
            h == self@.height,
    {
        self.height
    }

    /// The cursor: the column and row of the next pixel to fill, or
    /// `(width, height)` once the image is full.
    pub fn cursor(&self) -> (at: (i32, i32))
        ensures
            at.0 == self@.x,
            at.1 == self@.y,
    {
        (self.xpos, self.ypos)
    }

    /// Whether every pixel has been filled.
    pub fn is_complete(&self) -> (done: bool)
        ensures
            done == self@.complete(),
    {
        self.xpos == self.width && self.ypos == self.height
    }

    /// The image: packed RGB, three bytes to a pixel, row after row with no
    /// padding between rows.
    pub fn image_buffer(&self) -> (bytes: &Vec<u8>)
        ensures
            bytes@ == self@.bytes,
    {
        &self.image
    }

    /// The place in the image of the first byte of the pixel in column `x`
    /// of row `y`.
    fn offset(&self, x: i32, y: i32) -> (at: usize)
        requires
            self@.wf(),
            0 <= x < self@.width,
            0 <= y < self@.height,
        ensures
            at == 3 * place(self@.width, x as int, y as int),
            at + 2 < self@.bytes.len() <= usize::MAX,
    {
        proof {
            lemma_place_in_range(self.width as int, self.height as int, x as int, y as int);
            assert(self.image@.len() == self.image.len());
        }
        let row: usize = (y as usize) * (self.width as usize);
        3 * (row + (x as usize))
    }

    /// The colour held for the pixel in column `x` of row `y`, or `None`
    /// where the image has no such pixel.
    pub fn pixel(&self, x: i32, y: i32) -> (found: Option<Rgb>)
        requires
            self@.wf(),
        ensures
            found is Some <==> 0 <= x < self@.width && 0 <= y < self@.height,
            found matches Some(rgb) ==> rgb == self@.pixel(x as int, y as int),
    {
        if 0 <= x && x < self.width && 0 <= y && y < self.height {
            let at = self.offset(x, y);
            Some((self.image[at], self.image[at + 1], self.image[at + 2]))
        } else {
            None
        }
    }

    /// Stores one colour at the cursor and moves the cursor on.
    pub fn store(&mut self, rgb: Rgb)
        requires
            old(self)@.wf(),
            !old(self)@.complete(),
        ensures
            final(self)@ == old(self)@.store(rgb),
            final(self)@.wf(),
    {
        proof {
            lemma_store_fills_one(self@, rgb);
        }
        let at = self.offset(self.xpos, self.ypos);
        self.image.set(at, rgb.0);
        self.image.set(at + 1, rgb.1);
        self.image.set(at + 2, rgb.2);
        if self.xpos + 1 < self.width {
            self.xpos = self.xpos + 1;
        } else if self.ypos + 1 < self.height {
            self.xpos = 0;
            self.ypos = self.ypos + 1;
        } else {
            self.xpos = self.width;
            self.ypos = self.height;
        }
    }

    /// Fills the image from `receive`: colour after colour is asked for and
    /// stored, in row-major order from the cursor on, until the image is full
    /// or `receive` answers `None`. The result says whether the image is now
    /// full.
    ///
    /// A full canvas is left exactly as it is, and `receive` is not asked.
    /// Otherwise the cursor ends on the first pixel for which `receive` had
    /// no colour, and only the bytes of the pixels between the old cursor and
    /// the new one have changed.
    pub fn fill_from<R: Fn() -> Option<Rgb>>(&mut self, receive: R) -> (done: bool)
        requires
            old(self)@.wf(),
            call_requires(receive, ()),
        ensures
            final(self)@.wf(),
            done == final(self)@.complete(),
            old(self)@.complete() ==> *final(self) == *old(self),
            exists|got: Seq<Rgb>| is_fill(old(self)@, receive, got, final(self)@),
            final(self)@.width == old(self)@.width,
            final(self)@.height == old(self)@.height,
            old(self)@.filled() <= final(self)@.filled(),
            forall|i: int|
                0 <= i < 3 * old(self)@.filled() || 3 * final(self)@.filled() <= i < old(
                    self,
                )@.bytes.len() ==> final(self)@.bytes[i] == old(self)@.bytes[i],
    {
        let ghost mut got: Seq<Rgb> = Seq::empty();
        proof {
            lemma_filled_bounds(self@);
        }
        while !self.is_complete()
            invariant
                old(self)@.wf(),
                self@.wf(),
                call_requires(receive, ()),
                old(self)@.complete() ==> *self == *old(self),
                old(self)@.filled() + got.len() <= old(self)@.width * old(self)@.height,
                self@ == old(self)@.store_all(got),
                self@.filled() == old(self)@.filled() + got.len(),
                self@.width == old(self)@.width,
                self@.height == old(self)@.height,
                forall|j: int|
                    0 <= j < got.len() ==> call_ensures(receive, (), Some(#[trigger] got[j])),
            decreases self@.width * self@.height - self@.filled(),
        {
            match receive() {
                Some(rgb) => {
                    let ghost before = self@;
                    let ghost taken = got;
                    self.store(rgb);
                    proof {
                        lemma_store_fills_one(before, rgb);
                        lemma_filled_bounds(before);
                        got = taken.push(rgb);
                        assert(got.drop_last() =~= taken);
                        assert forall|j: int| 0 <= j < got.len() implies call_ensures(
                            receive,
                            (),
                            Some(#[trigger] got[j]),
                        ) by {
                            if j < taken.len() {
                                assert(got[j] == taken[j]);
                            }
                        }
                    }
                },
                None => {
                    proof {
                        lemma_store_all_fills_in_order(old(self)@, got);
                        assert(is_fill(old(self)@, receive, got, self@));
                    }
                    return false;
                },
            }
        }
        proof {
            lemma_store_all_fills_in_order(old(self)@, got);
            assert(is_fill(old(self)@, receive, got, self@));
        }
        true
    }
}

} // verus!
