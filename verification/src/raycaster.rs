use vstd::prelude::*;
use futures_channel::oneshot::{Receiver, Sender};
use crate::canvas::{alpha, Canvas};
use crate::vector::Vector3;

verus! {

/// `futures_channel::oneshot::Sender`: the sending half of a channel for one
/// value. Nothing is known of what is inside it.
#[verifier::external_type_specification]
#[verifier::external_body]
#[verifier::reject_recursive_types(T)]
pub struct ExSender<T>(futures_channel::oneshot::Sender<T>);

/// `futures_channel::oneshot::Receiver`: the receiving half of a channel for
/// one value, a future that resolves to the value sent. Nothing is known of
/// what is inside it.
#[verifier::external_type_specification]
#[verifier::external_body]
#[verifier::reject_recursive_types(T)]
pub struct ExReceiver<T>(futures_channel::oneshot::Receiver<T>);

/// `futures_channel::oneshot::Canceled`: what the receiving half of a channel
/// resolves to where the sending half was dropped unused.
#[verifier::external_type_specification]
#[verifier::external_body]
pub struct ExCanceled(futures_channel::oneshot::Canceled);

/// `futures_channel::oneshot::channel` makes the two halves of a new channel
/// for one value. It always returns; nothing is claimed of the halves.
pub assume_specification<T>[ futures_channel::oneshot::channel::<T> ]() -> (halves: (
    Sender<T>,
    Receiver<T>,
));

/// `futures_channel::oneshot::Sender::send` uses the sending half up and
/// leaves the value for the receiving half, or gives it back in `Err` where
/// that half is gone. Which of the two happens depends on the other side, so
/// all that is claimed is that a value given back is the value handed in.
pub assume_specification<T>[ futures_channel::oneshot::Sender::<T>::send ](
    tx: Sender<T>,
    t: T,
) -> (r: Result<(), T>)
    ensures
        r matches Err(back) ==> back == t,
;

/// How a render ends for whoever waits for it: with the finished image, or
/// with the reason it was lost.
pub type Outcome = Result<Vec<u8>, RenderError>;

/// Bytes per pixel: red, green, blue, alpha.
pub const CHUNK: usize = 4;

/// The alpha byte of every written pixel.
pub const OPAQUE: u8 = 255;

/// Why a render could not start, or why a pixel was turned away.
#[derive(Clone, Copy, Debug, PartialEq, Eq, Structural)]
pub enum RenderError {
    /// A render was asked for with no worker at all.
    NoWorkers,
    /// The pixel buffer cannot be had: its size is beyond the address space,
    /// or the allocator turned the request down.
    Allocation,
    /// A worker gave up; the render is lost and takes no more pixels.
    WorkerFailed,
    /// The pixel index lies outside the image.
    OutOfRange,
    /// The pixel was written before. Every pixel is written once.
    Repeated,
}

/// The colour of one finished pixel.
#[derive(Clone, Copy, Debug, PartialEq, Eq, Structural)]
pub struct Rgb {
    pub r: u8,
    pub g: u8,
    pub b: u8,
}

impl Rgb {
    /// The pixel of a colour whose channels were scaled to run from 0 to 255:
    /// each channel cut down to a byte.
    pub open spec fn quantize_spec(col: Vector3) -> Rgb {
        Rgb { r: col.x.byte_spec(), g: col.y.byte_spec(), b: col.z.byte_spec() }
    }

    #[verifier::when_used_as_spec(quantize_spec)]
    pub fn quantize(col: Vector3) -> (px: Rgb)
        ensures
            px == Rgb::quantize_spec(col),
    {
        Rgb { r: col.x.to_byte(), g: col.y.to_byte(), b: col.z.to_byte() }
    }
}

/// How many entries of `marks` are set.
pub open spec fn marked(marks: Seq<bool>) -> nat
    decreases marks.len(),
{
    if marks.len() == 0 {
        0
    } else {
        marked(marks.drop_last()) + if marks.last() {
            1nat
        } else {
            0nat
        }
    }
}

proof fn lemma_marked_bound(marks: Seq<bool>)
    ensures
        marked(marks) <= marks.len(),
        marked(marks) == marks.len() <==> forall|i: int| 0 <= i < marks.len() ==> marks[i],
    decreases marks.len(),
{
    if marks.len() > 0 {
        let front = marks.drop_last();
        lemma_marked_bound(front);
        if marked(marks) == marks.len() {
            assert forall|i: int| 0 <= i < marks.len() implies marks[i] by {
                if i < front.len() {
                    assert(front[i]);
                }
            }
        }
        if forall|i: int| 0 <= i < marks.len() ==> marks[i] {
            assert forall|i: int| 0 <= i < front.len() implies front[i] by {
                assert(marks[i]);
            }
        }
    }
}

proof fn lemma_marked_update(marks: Seq<bool>, i: int)
    requires
        0 <= i < marks.len(),
        !marks[i],
    ensures
        marked(marks.update(i, true)) == marked(marks) + 1,
    decreases marks.len(),
{
    let after = marks.update(i, true);
    if i == marks.len() - 1 {
        assert(after.drop_last() =~= marks.drop_last());
    } else {
        lemma_marked_update(marks.drop_last(), i);
        assert(after.drop_last() =~= marks.drop_last().update(i, true));
    }
}

/// The image size a render is made for.
pub struct Raycaster {
    pub width: u32,
    pub height: u32,
}

/// A render under way: the pixel buffer that the workers fill, and the books
/// on which pixels are in.
pub struct RenderResult {
    width: u32,
    height: u32,
    samples: u32,
    data: Vec<u8>,
    marks: Vec<bool>,
    pending: usize,
    failed: bool,
    signal: Option<Sender<Outcome>>,
}

impl Raycaster {
    pub open spec fn pixels(self) -> nat {
        self.width as nat * self.height as nat
    }

    /// Whether the pixel buffer's length can be written as a `usize`.
    pub open spec fn fits(self) -> bool {
        4 * self.pixels() <= usize::MAX
    }

    pub fn new(width: u32, height: u32) -> (r: Result<Raycaster, RenderError>)
        ensures
            r == Ok::<Raycaster, RenderError>(Raycaster { width, height }),
    {
        Ok(Raycaster { width, height })
    }

    /// The number of pixels, where four bytes for each of them can be
    /// addressed.
    pub fn pixel_count(&self) -> (n: Option<usize>)
        ensures
            self.fits() ==> n == Some(self.pixels() as usize),
            !self.fits() ==> n is None,
    {
        let w: u64 = self.width as u64;
        let h: u64 = self.height as u64;
        assert(w * h <= 0xffff_ffff * 0xffff_ffff) by (nonlinear_arith)
            requires
                w <= 0xffff_ffff,
                h <= 0xffff_ffff,
        ;
        let pixels: u64 = w * h;
        let most: u64 = (usize::MAX / CHUNK) as u64;
        if pixels > most {
            None
        } else {
            Some(pixels as usize)
        }
    }

    /// Starts a render on storage that was asked for beforehand: `room` holds
    /// the two buffers where the allocator granted them, and nothing where it
    /// did not. What the buffers hold is discarded.
    ///
    /// With the render comes the receiving half of the channel on which its
    /// outcome will be sent, once. An image without pixels is complete from
    /// the start, and its outcome is sent at once.
    pub fn render_in(
        self,
        samples: u32,
        concurrency: usize,
        room: Option<(Vec<u8>, Vec<bool>)>,
    ) -> (r: Result<(RenderResult, Receiver<Outcome>), RenderError>)
        ensures
            concurrency == 0 ==> (r matches Err(e) && e == RenderError::NoWorkers),
            concurrency != 0 && (!self.fits() || room is None) ==> (r matches Err(e) && e
                == RenderError::Allocation),
            concurrency != 0 && self.fits() && room is Some ==> (r matches Ok(started)
                && started.0.wf() && started.0.sampling() == samples && started.0@
                == Canvas::blank(self.width as nat, self.height as nat)),
    {
        if concurrency == 0 {
            return Err(RenderError::NoWorkers);
        }
        let pixels: usize = match self.pixel_count() {
            Some(n) => n,
            None => {
                return Err(RenderError::Allocation);
            },
        };
        let (mut data, mut marks) = match room {
            Some(pair) => pair,
            None => {
                return Err(RenderError::Allocation);
            },
        };
        data.clear();
        marks.clear();
        let mut i: usize = 0;
        while i < pixels
            invariant
                i <= pixels,
                4 * pixels <= usize::MAX,
                data@ =~= Seq::new(4 * i as nat, |k: int| 0u8),
                marks@ =~= Seq::new(i as nat, |k: int| false),
            decreases pixels - i,
        {
            data.push(0);
            data.push(0);
            data.push(0);
            data.push(0);
            marks.push(false);
            i += 1;
        }
        let (tx, rx) = futures_channel::oneshot::channel::<Outcome>();
        let mut job = RenderResult {
            width: self.width,
            height: self.height,
            samples,
            data,
            marks,
            pending: pixels,
            failed: false,
            signal: None,
        };
        proof {
            lemma_marked_bound(job.marks@);
            assert(marked(job.marks@) == 0) by {
                lemma_none_marked(job.marks@);
            }
            assert(job@.written =~= Set::<int>::empty());
            assert(job@.bytes =~= Canvas::blank(self.width as nat, self.height as nat).bytes);
        }
        if pixels == 0 {
            job.tell(Some(tx));
        } else {
            job.signal = Some(tx);
        }
        Ok((job, rx))
    }

    /// Allocates the pixel buffer, all zero, and starts a render of `samples`
    /// samples to the pixel for `concurrency` workers.
    ///
    /// Fails with `NoWorkers` exactly when `concurrency` is zero. Otherwise it
    /// fails, with `Allocation`, when the buffer cannot be addressed; where it
    /// can, the allocator decides between a blank render and `Allocation`.
    /// An image without pixels needs no buffer, and its render always starts.
    pub fn render(self, samples: u32, concurrency: usize) -> (r: Result<
        (RenderResult, Receiver<Outcome>),
        RenderError,
    >)
        ensures
            concurrency == 0 <==> (r matches Err(e) && e == RenderError::NoWorkers),
            concurrency != 0 && !self.fits() ==> (r matches Err(e) && e == RenderError::Allocation),
            concurrency != 0 && self.pixels() == 0 ==> r is Ok,
            r matches Err(e) ==> e == RenderError::NoWorkers || e == RenderError::Allocation,
            r matches Ok(started) ==> started.0.wf() && started.0.sampling() == samples
                && started.0@ == Canvas::blank(self.width as nat, self.height as nat),
    {
        let room = if concurrency == 0 {
            None
        } else {
            match self.pixel_count() {
                Some(n) => reserve(n),
                None => None,
            }
        };
        self.render_in(samples, concurrency, room)
    }
}

proof fn lemma_none_marked(marks: Seq<bool>)
    requires
        forall|i: int| 0 <= i < marks.len() ==> !marks[i],
    ensures
        marked(marks) == 0,
    decreases marks.len(),
{
    if marks.len() > 0 {
        lemma_none_marked(marks.drop_last());
    }
}

/// Asks the allocator for room for `pixels` pixels: four bytes and one mark
/// each. Both buffers come back empty, or nothing where either was refused.
/// For no pixels nothing is asked for, and the buffers always come back.
fn reserve(pixels: usize) -> (room: Option<(Vec<u8>, Vec<bool>)>)
    requires
        4 * pixels <= usize::MAX,
    ensures
        room matches Some(pair) ==> pair.0@.len() == 0 && pair.1@.len() == 0,
        pixels == 0 ==> room is Some,
{
    let mut data: Vec<u8> = Vec::new();
    let mut marks: Vec<bool> = Vec::new();
    if pixels == 0 {
        return Some((data, marks));
    }
    if data.try_reserve(CHUNK * pixels).is_err() {
        return None;
    }
    if marks.try_reserve(pixels).is_err() {
        return None;
    }
    Some((data, marks))
}

impl View for RenderResult {
    type V = Canvas;

    closed spec fn view(&self) -> Canvas {
        Canvas {
            width: self.width as nat,
            height: self.height as nat,
            bytes: self.data@,
            written: Set::new(|i: int| 0 <= i < self.marks@.len() && self.marks@[i]),
            failed: self.failed,
        }
    }
}

impl RenderResult {
    /// The books agree with the buffer: the buffer has four bytes for every
    /// pixel, the count of pending pixels is right, every written pixel is
    /// opaque, and the sending half of the channel is still at hand exactly
    /// while the render is not settled.
    pub closed spec fn wf(&self) -> bool {
        &&& self.signal is Some <==> !self.failed && self.pending != 0
        &&& self.marks@.len() == self.width as nat * self.height as nat
        &&& self.data@.len() == 4 * self.marks@.len()
        &&& self.pending + marked(self.marks@) == self.marks@.len()
        &&& forall|i: int|
            0 <= i < self.marks@.len() && #[trigger] self.marks@[i] ==> self.data@[4 * i + 3]
                == OPAQUE
    }

    /// The count of pending pixels is the number of pixels not yet written.
    proof fn lemma_books(&self)
        requires
            self.wf(),
        ensures
            self@.written.finite(),
            self.pending + self@.written.len() == self@.pixels(),
            self.pending == 0 <==> forall|i: int|
                0 <= i < self@.pixels() ==> self@.written.contains(i),
    {
        lemma_marked_bound(self.marks@);
        lemma_marked_counts(self.marks@);
        if self.pending == 0 {
            assert forall|j: int| 0 <= j < self@.pixels() implies self@.written.contains(j) by {
                assert(self.marks@[j]);
            }
        } else {
            let j = choose|j: int| 0 <= j < self.marks@.len() && !self.marks@[j];
            assert(!self@.written.contains(j));
        }
    }

    /// A well-formed render shows a well-formed canvas.
    pub proof fn lemma_view_wf(&self)
        requires
            self.wf(),
        ensures
            self@.wf(),
    {
        assert forall|i: int| #[trigger] self@.written.contains(i) implies self@.bytes[4 * i + 3]
            == OPAQUE by {
            assert(self.marks@[i]);
        }
    }

    /// How many samples go into every pixel of this render.
    pub closed spec fn sampling(&self) -> nat {
        self.samples as nat
    }

    pub fn samples(&self) -> (n: u32)
        ensures
            n == self.sampling(),
    {
        self.samples
    }

    pub fn width(&self) -> (w: u32)
        ensures
            w == self@.width,
    {
        self.width
    }

    pub fn height(&self) -> (h: u32)
        ensures
            h == self@.height,
    {
        self.height
    }

    /// The pixel that chunk `i` of the buffer belongs to, as column and row:
    /// chunks run along the rows, one row after the other. Distinct chunks
    /// belong to distinct pixels.
    pub fn pixel_at(&self, i: usize) -> (at: Option<(u32, u32)>)
        requires
            self.wf(),
        ensures
            i >= self@.pixels() ==> at is None,
            i < self@.pixels() ==> at == Some(
                ((i as int % self@.width as int) as u32, (i as int / self@.width as int) as u32),
            ),
            at matches Some((x, y)) ==> x < self@.width && y < self@.height && y * self@.width + x
                == i,
    {
        if i >= self.marks.len() {
            return None;
        }
        let w: usize = self.width as usize;
        proof {
            let h = self.height as int;
            let n = i as int;
            let d = w as int;
            assert(d > 0) by (nonlinear_arith)
                requires
                    0 <= n < d * h,
                    0 <= d,
                    0 <= h,
            ;
            assert(0 <= n / d && n / d < h && (n / d) * d + n % d == n && 0 <= n % d && n % d < d)
                by (nonlinear_arith)
                requires
                    0 <= n < d * h,
                    d > 0,
            ;
        }
        Some(((i % w) as u32, (i / w) as u32))
    }

    /// How many pixels are still to be written.
    pub fn pending(&self) -> (n: usize)
        requires
            self.wf(),
        ensures
            n + self@.written.len() == self@.pixels(),
            self@.written.finite(),
            n == 0 <==> forall|i: int| 0 <= i < self@.pixels() ==> self@.written.contains(i),
    {
        proof {
            self.lemma_books();
        }
        self.pending
    }

    /// Writes pixel `i`: its three colour bytes and an opaque alpha. No other
    /// byte of the buffer changes. A pixel outside the image, a pixel written
    /// before, and any pixel of a failed render are turned away, and the
    /// render stays as it was.
    ///
    /// The write that brings the last pixel in sends the finished image to
    /// whoever waits for the render, and is answered `Ok(true)`; no other
    /// write is.
    pub fn store(&mut self, i: usize, px: Rgb) -> (r: Result<bool, RenderError>)
        requires
            old(self).wf(),
        ensures
            final(self).wf(),
            final(self)@ == old(self)@.store(i as int, px),
            final(self).sampling() == old(self).sampling(),
            r == old(self)@.answer(i as int),
            r == Ok::<bool, RenderError>(true) <==> final(self)@.complete() && !old(
                self,
            )@.settled(),
    {
        proof {
            self.lemma_books();
            lemma_marked_bound(self.marks@);
        }
        if self.failed {
            return Err(RenderError::WorkerFailed);
        }
        if i >= self.marks.len() {
            return Err(RenderError::OutOfRange);
        }
        if self.marks[i] {
            assert(self@.written.contains(i as int));
            return Err(RenderError::Repeated);
        }
        assert(!self@.written.contains(i as int));
        let total: usize = self.data.len();
        assert(4 * i + 3 < total);
        let base: usize = CHUNK * i;
        self.data[base] = px.r;
        self.data[base + 1] = px.g;
        self.data[base + 2] = px.b;
        self.data[base + 3] = OPAQUE;
        self.marks[i] = true;
        proof {
            lemma_marked_update(old(self).marks@, i as int);
            lemma_marked_bound(self.marks@);
        }
        self.pending = self.pending - 1;
        proof {
            assert(self@.written =~= old(self)@.written.insert(i as int));
            assert(self@.bytes =~= old(self)@.paint(i as int, px).bytes);
            assert forall|j: int| 0 <= j < self.marks@.len() && #[trigger] self.marks@[j] implies self.data@[4
                * j + 3] == OPAQUE by {
                if j != i {
                    assert(old(self).marks@[j]);
                }
            }
        }
        let done = self.pending == 0;
        if done {
            let tx = self.signal.take();
            self.tell(tx);
        }
        proof {
            self.lemma_books();
            if self.pending == 0 {
                assert forall|j: int| 0 <= j < self@.pixels() && j != i implies old(
                    self,
                )@.written.contains(j) by {
                    assert(self@.written.contains(j));
                }
            } else {
                let j = choose|j: int| 0 <= j < self@.pixels() && !self@.written.contains(j);
                assert(!old(self)@.written.contains(j));
            }
        }
        Ok(done)
    }

    /// Records that a worker has failed. A render that is still under way
    /// becomes a failed one, whoever waits for it is sent the failure, and
    /// the answer is `true`. A settled render stays as it is.
    pub fn abort(&mut self) -> (fired: bool)
        requires
            old(self).wf(),
        ensures
            final(self).wf(),
            final(self)@ == old(self)@.abort(),
            final(self).sampling() == old(self).sampling(),
            fired == !old(self)@.settled(),
    {
        proof {
            self.lemma_books();
        }
        if self.failed || self.pending == 0 {
            false
        } else {
            self.failed = true;
            let tx = self.signal.take();
            self.tell(tx);
            true
        }
    }

    /// Sends the outcome of a settled render through `tx`, the sending half
    /// taken from it. What is sent is what `promise` returns.
    fn tell(&self, tx: Option<Sender<Outcome>>)
        requires
            self.wf(),
            self@.settled(),
    {
        if let Some(tx) = tx {
            let outcome = self.promise().unwrap();
            match tx.send(outcome) {
                Ok(()) => {},
                Err(_) => {},
            }
        }
    }

    /// A copy of the buffer as it stands, finished or not: four bytes for
    /// every pixel of the image, zero where nothing was written yet.
    pub fn image_so_far(&self) -> (img: Vec<u8>)
        requires
            self.wf(),
        ensures
            img@ == self@.bytes,
            img@.len() == 4 * self@.pixels(),
    {
        let img = self.data.clone();
        assert(img@ =~= self.data@);
        img
    }

    /// The render's outcome, for whoever waits for it: nothing while pixels
    /// are pending, the finished image once all are in, the failure once a
    /// worker has failed. Every alpha byte of a finished image is opaque.
    pub fn promise(&self) -> (r: Option<Result<Vec<u8>, RenderError>>)
        requires
            self.wf(),
        ensures
            r is None <==> !self@.settled(),
            self@.failed <==> (r matches Some(Err(e)) && e == RenderError::WorkerFailed),
            self@.complete() <==> (r matches Some(Ok(img)) && img@ == self@.bytes),
            r matches Some(Ok(img)) ==> img@.len() == 4 * self@.pixels() && forall|i: int|
                0 <= i < self@.pixels() ==> #[trigger] alpha(img@, i) == OPAQUE,
    {
        proof {
            self.lemma_books();
        }
        if self.failed {
            Some(Err(RenderError::WorkerFailed))
        } else if self.pending == 0 {
            let img = self.image_so_far();
            proof {
                assert forall|i: int| 0 <= i < self@.pixels() implies #[trigger] alpha(img@, i)
                    == OPAQUE by {
                    assert(self@.written.contains(i));
                    assert(self.marks@[i]);
                }
            }
            Some(Ok(img))
        } else {
            None
        }
    }
}

/// The set of marked places has as many members as `marked` counts.
proof fn lemma_marked_counts(marks: Seq<bool>)
    ensures
        Set::new(|i: int| 0 <= i < marks.len() && marks[i]).finite(),
        Set::new(|i: int| 0 <= i < marks.len() && marks[i]).len() == marked(marks),
    decreases marks.len(),
{
    let all = Set::new(|i: int| 0 <= i < marks.len() && marks[i]);
    if marks.len() == 0 {
        assert(all =~= Set::<int>::empty());
    } else {
        let front = marks.drop_last();
        let before = Set::new(|i: int| 0 <= i < front.len() && front[i]);
        lemma_marked_counts(front);
        if marks.last() {
            assert(all =~= before.insert(marks.len() - 1));
        } else {
            assert(all =~= before);
        }
    }
}

} // verus!
