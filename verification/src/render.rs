//! The rendering job: a producer that streams pixel colours in row-major
//! order, and the consumer that pulls what has arrived into its canvas
//! without ever waiting.

use crate::canvas::{
    is_fill, lemma_filled_bounds, lemma_place_in_range, lemma_place_is_one_to_one,
    lemma_store_all_fills_in_order, place, Canvas, CanvasState, Rgb,
};
use crate::channel::{hand_off, open, try_receive};
use std::sync::mpsc::{Receiver, Sender};
use vstd::prelude::*;

verus! {

/// A progressive render of an image: the canvas as far as it has been
/// filled, and the receiving end of the pixel channel. Dropping the job
/// closes the channel, which is what stops the producer.
pub struct RenderJob {
    canvas: Canvas,
    receiver: Receiver<Rgb>,
}

impl View for RenderJob {
    type V = CanvasState;

    closed spec fn view(&self) -> CanvasState {
        self.canvas@
    }
}

impl RenderJob {
    /// A job for an image of the given size, all bytes zero, with the cursor
    /// on the first pixel; and the sending end of its pixel channel, for the
    /// producer.
    pub fn new(width: i32, height: i32) -> (made: (RenderJob, Sender<Rgb>))
        requires
            width > 0,
            height > 0,
            3 * (width * height) <= isize::MAX,
        ensures
            made.0@.wf(),
            made.0@.width == width,
            made.0@.height == height,
            made.0@.x == 0,
            made.0@.y == 0,
            made.0@.bytes == Seq::new((3 * (width * height)) as nat, |i: int| 0u8),
    {
        let canvas = Canvas::new(width, height);
        let (sender, receiver) = open();
        (RenderJob { canvas, receiver }, sender)
    }

    /// The canvas of this job.
    pub fn canvas(&self) -> (canvas: &Canvas)
        ensures
            canvas@ == self@,
    {
        &self.canvas
    }

    /// The image's width in pixels.
    pub fn width(&self) -> (w: i32)
        ensures
            w == self@.width,
    {
        self.canvas.width()
    }

    /// The image's height in pixels.
    pub fn height(&self) -> (h: i32)
        ensures
            h == self@.height,
    {
        self.canvas.height()
    }

    /// The cursor: the column and row of the next pixel to fill, or
    /// `(width, height)` once the image is full.
    pub fn cursor(&self) -> (at: (i32, i32))
        ensures
            at.0 == self@.x,
            at.1 == self@.y,
    {
        self.canvas.cursor()
    }

    /// Whether every pixel has been filled.
    pub fn is_complete(&self) -> (done: bool)
        ensures
            done == self@.complete(),
    {
        self.canvas.is_complete()
    }

    /// The image: packed RGB, three bytes to a pixel, row after row with no
    /// padding between rows.
    pub fn image_buffer(&self) -> (bytes: &Vec<u8>)
        ensures
            bytes@ == self@.bytes,
    {
        self.canvas.image_buffer()
    }

    /// Pulls the colours that have arrived into the image, in row-major order
    /// from the cursor on, without waiting for more, and says whether the
    /// image is now full: `Canvas::fill_from` with the job's pixel channel as
    /// the source.
    ///
    /// A full job is left exactly as it is. Otherwise the job ends as if the
    /// colours that were waiting had been stored one by one: the cursor is on
    /// the first pixel for which none was waiting, and only the bytes of the
    /// pixels between the old cursor and the new one have changed. How many
    /// colours were waiting depends on the producer.
    pub fn drain(&mut self) -> (done: bool)
        requires
            old(self)@.wf(),
        ensures
            final(self)@.wf(),
            done == final(self)@.complete(),
            old(self)@.complete() ==> *final(self) == *old(self),
            exists|got: Seq<Rgb>|
                old(self)@.filled() + got.len() <= old(self)@.width * old(self)@.height
                    && final(self)@ == old(self)@.store_all(got),
            final(self)@.width == old(self)@.width,
            final(self)@.height == old(self)@.height,
            old(self)@.filled() <= final(self)@.filled(),
            forall|i: int|
                0 <= i < 3 * old(self)@.filled() || 3 * final(self)@.filled() <= i < old(
                    self,
                )@.bytes.len() ==> final(self)@.bytes[i] == old(self)@.bytes[i],
    {
        let receiver = &self.receiver;
        let receive = || -> (got: Option<Rgb>) { try_receive(receiver) };
        let done = self.canvas.fill_from(receive);
        proof {
            let got = choose|got: Seq<Rgb>| is_fill(old(self)@, receive, got, self@);
            assert(old(self)@.filled() + got.len() <= old(self)@.width * old(self)@.height
                && self@ == old(self)@.store_all(got));
        }
        done
    }
}

/// `sent` is what a producer of a `width` by `height` render computed, in
/// the order of computing, when `taken` of its colours were taken: the
/// colour in each place is one that `color_at` gave for the pixel of that
/// place in row-major order, and where the colours taken are not the whole
/// image there is one more colour, the one that was not taken, and none
/// after it.
pub open spec fn is_walk<F: Fn(i32, i32) -> Rgb>(
    width: i32,
    height: i32,
    color_at: F,
    sent: Seq<Rgb>,
    taken: int,
) -> bool {
    &&& 0 <= taken <= width * height
    &&& sent.len() == if taken < width * height {
        taken + 1
    } else {
        taken
    }
    &&& forall|x: i32, y: i32|
        #![trigger place(width as int, x as int, y as int)]
        0 <= x < width && 0 <= y < height && place(width as int, x as int, y as int)
            < sent.len() ==> call_ensures(
            color_at,
            (x, y),
            sent[place(width as int, x as int, y as int)],
        )
}

/// `sent` is what a producer of a `width` by `height` render computed and
/// handed to `deliver`, when `taken` of its colours were taken: `sent` is the
/// producer's walk, `deliver` answered `true` for each of the first `taken`
/// colours, and where that is not the whole image it answered `false` for
/// the one more.
pub open spec fn is_stream<F: Fn(i32, i32) -> Rgb, D: Fn(Rgb) -> bool>(
    width: i32,
    height: i32,
    color_at: F,
    deliver: D,
    sent: Seq<Rgb>,
    taken: int,
) -> bool {
    &&& is_walk(width, height, color_at, sent, taken)
    &&& forall|p: int| 0 <= p < taken ==> call_ensures(deliver, (#[trigger] sent[p],), true)
    &&& taken < width * height ==> call_ensures(deliver, (sent[taken],), false)
}

/// What the job shows is what the producer computed: where a blank canvas
/// has stored `got`, the first colours of a producer's stream `sent` in their
/// order (the channel keeps the order), every pixel before the cursor holds a
/// colour that `color_at` gave for that pixel. With the whole stream of a
/// finished producer stored, that is every pixel of the image.
pub proof fn lemma_job_shows_the_stream<F: Fn(i32, i32) -> Rgb, D: Fn(Rgb) -> bool>(
    blank: CanvasState,
    width: i32,
    height: i32,
    color_at: F,
    deliver: D,
    sent: Seq<Rgb>,
    taken: int,
    got: Seq<Rgb>,
)
    requires
        blank.wf(),
        blank.width == width,
        blank.height == height,
        blank.x == 0,
        blank.y == 0,
        is_stream(width, height, color_at, deliver, sent, taken),
        got.len() <= taken,
        got == sent.subrange(0, got.len() as int),
    ensures
        blank.store_all(got).wf(),
        blank.store_all(got).filled() == got.len(),
        got.len() == width * height ==> blank.store_all(got).complete(),
        forall|x: i32, y: i32|
            #![trigger place(width as int, x as int, y as int)]
            0 <= x < width && 0 <= y < height && place(width as int, x as int, y as int)
                < got.len() ==> call_ensures(
                color_at,
                (x, y),
                blank.store_all(got).pixel(x as int, y as int),
            ),
{
    let shown = blank.store_all(got);
    lemma_store_all_fills_in_order(blank, got);
    lemma_filled_bounds(shown);
    assert forall|x: i32, y: i32|
        #![trigger place(width as int, x as int, y as int)]
        0 <= x < width && 0 <= y < height && place(width as int, x as int, y as int)
            < got.len() implies call_ensures(
        color_at,
        (x, y),
        shown.pixel(x as int, y as int),
    ) by {
        let at = place(width as int, x as int, y as int);
        lemma_place_in_range(width as int, height as int, x as int, y as int);
        assert(shown.at_place(blank.filled() + at) == got[at]);
        assert(got[at] == sent[at]);
    }
}

/// The producer's walk over a `width` by `height` image. For each pixel in
/// row-major order, row zero and column zero first, it asks `color_at` for
/// the colour of column `x` in row `y` and hands it to `deliver`. It stops at
/// the first colour for which `deliver` answers `false`, and computes no
/// further pixel. The result is the number of colours that were taken. An
/// image with no pixels gives zero.
pub fn stream_pixels<F: Fn(i32, i32) -> Rgb, D: Fn(Rgb) -> bool>(
    width: i32,
    height: i32,
    color_at: F,
    deliver: D,
) -> (taken: u64)
    requires
        forall|x: i32, y: i32|
            0 <= x < width && 0 <= y < height ==> call_requires(color_at, (x, y)),
        forall|rgb: Rgb| call_requires(deliver, (rgb,)),
    ensures
        width <= 0 || height <= 0 ==> taken == 0,
        width > 0 && height > 0 ==> exists|sent: Seq<Rgb>|
            is_stream(width, height, color_at, deliver, sent, taken as int),
{
    if width <= 0 || height <= 0 {
        return 0;
    }
    let ghost mut sent: Seq<Rgb> = Seq::empty();
    let mut taken: u64 = 0;
    let mut y: i32 = 0;
    while y < height
        invariant
            0 < width,
            0 <= y <= height,
            taken == y * width,
            sent.len() == taken,
            forall|u: i32, v: i32|
                #![trigger place(width as int, u as int, v as int)]
                0 <= u < width && 0 <= v < height && place(width as int, u as int, v as int)
                    < sent.len() ==> call_ensures(
                    color_at,
                    (u, v),
                    sent[place(width as int, u as int, v as int)],
                ),
            forall|p: int| 0 <= p < taken ==> call_ensures(deliver, (#[trigger] sent[p],), true),
            forall|x: i32, y: i32|
                0 <= x < width && 0 <= y < height ==> call_requires(color_at, (x, y)),
            forall|rgb: Rgb| call_requires(deliver, (rgb,)),
        decreases height - y,
    {
        let mut x: i32 = 0;
        while x < width
            invariant
                0 <= x <= width,
                0 <= y < height,
                taken == y * width + x,
                sent.len() == taken,
                forall|u: i32, v: i32|
                    #![trigger place(width as int, u as int, v as int)]
                    0 <= u < width && 0 <= v < height && place(width as int, u as int, v as int)
                        < sent.len() ==> call_ensures(
                        color_at,
                        (u, v),
                        sent[place(width as int, u as int, v as int)],
                    ),
                forall|p: int|
                    0 <= p < taken ==> call_ensures(deliver, (#[trigger] sent[p],), true),
                forall|x: i32, y: i32|
                    0 <= x < width && 0 <= y < height ==> call_requires(color_at, (x, y)),
                forall|rgb: Rgb| call_requires(deliver, (rgb,)),
            decreases width - x,
        {
            proof {
                lemma_place_in_range(width as int, height as int, x as int, y as int);
                assert(width * height <= 0x7fff_ffff * 0x7fff_ffff) by (nonlinear_arith)
                    requires
                        0 < width <= 0x7fff_ffff,
                        0 < height <= 0x7fff_ffff,
                ;
            }
            let rgb = color_at(x, y);
            let ghost before = sent;
            proof {
                sent = before.push(rgb);
                assert forall|u: i32, v: i32|
                    #![trigger place(width as int, u as int, v as int)]
                    0 <= u < width && 0 <= v < height && place(width as int, u as int, v as int)
                        < sent.len() implies call_ensures(
                    color_at,
                    (u, v),
                    sent[place(width as int, u as int, v as int)],
                ) by {
                    let at = place(width as int, u as int, v as int);
                    if at < before.len() {
                        assert(sent[at] == before[at]);
                    } else {
                        lemma_place_is_one_to_one(
                            width as int,
                            x as int,
                            y as int,
                            u as int,
                            v as int,
                        );
                    }
                }
                assert forall|p: int| 0 <= p < taken implies call_ensures(
                    deliver,
                    (#[trigger] sent[p],),
                    true,
                ) by {
                    assert(sent[p] == before[p]);
                }
            }
            if !deliver(rgb) {
                assert(is_stream(width, height, color_at, deliver, sent, taken as int));
                return taken;
            }
            taken = taken + 1;
            x = x + 1;
        }
        proof {
            lemma_place_in_range(width as int, height as int, 0, y as int);
        }
        y = y + 1;
    }
    proof {
        assert(y * width == width * height) by (nonlinear_arith)
            requires
                y == height,
        ;
        assert(is_stream(width, height, color_at, deliver, sent, taken as int));
    }
    taken
}

/// The producer of a `width` by `height` render: `stream_pixels` with the
/// job's pixel channel as the taker. The size is that of the job whose
/// channel `sender` is. A colour is not taken once the job has been dropped,
/// which is how the producer learns to stop. The result is the number of
/// colours that the channel took.
///
/// The colours were computed by `color_at`, pixel after pixel in row-major
/// order: one for each colour taken and, where the producer stopped before
/// the end of the image, one more, which the channel did not take. Whether
/// the channel takes a colour depends on the job at its other end.
pub fn produce<F: Fn(i32, i32) -> Rgb>(
    width: i32,
    height: i32,
    color_at: F,
    sender: &Sender<Rgb>,
) -> (taken: u64)
    requires
        forall|x: i32, y: i32|
            0 <= x < width && 0 <= y < height ==> call_requires(color_at, (x, y)),
    ensures
        width <= 0 || height <= 0 ==> taken == 0,
        width > 0 && height > 0 ==> taken <= width * height,
        width > 0 && height > 0 ==> exists|sent: Seq<Rgb>|
            is_walk(width, height, color_at, sent, taken as int),
{
    let deliver = |rgb: Rgb| -> (taken: bool) { hand_off(sender, rgb) };
    let taken = stream_pixels(width, height, color_at, deliver);
    proof {
        if width > 0 && height > 0 {
            let sent = choose|sent: Seq<Rgb>|
                is_stream(width, height, color_at, deliver, sent, taken as int);
            assert(is_walk(width, height, color_at, sent, taken as int));
        }
    }
    taken
}

} // verus!
