use vstd::prelude::*;
use vstd::set_lib::{lemma_int_range, lemma_len_subset, lemma_subset_equality, set_int_range};
use crate::raycaster::{RenderError, Rgb, OPAQUE};

verus! {

/// Byte `c` of the chunk that stores `px`.
pub open spec fn channel(px: Rgb, c: int) -> u8 {
    if c == 0 {
        px.r
    } else if c == 1 {
        px.g
    } else if c == 2 {
        px.b
    } else {
        OPAQUE
    }
}

/// The alpha byte of pixel `i` in a buffer of four-byte chunks.
pub open spec fn alpha(bytes: Seq<u8>, i: int) -> u8 {
    bytes[4 * i + 3]
}

/// The state of a render as mathematics sees it: the bytes of the image, the
/// set of pixels already written, and whether a worker has failed.
pub struct Canvas {
    pub width: nat,
    pub height: nat,
    pub bytes: Seq<u8>,
    pub written: Set<int>,
    pub failed: bool,
}

impl Canvas {
    pub open spec fn pixels(self) -> nat {
        self.width * self.height
    }

    /// The canvas a render starts from: all bytes zero, nothing written.
    pub open spec fn blank(width: nat, height: nat) -> Canvas {
        Canvas {
            width,
            height,
            bytes: Seq::new(4 * (width * height), |k: int| 0u8),
            written: Set::empty(),
            failed: false,
        }
    }

    /// The canvas on which every pixel `i` has been given the colour
    /// `shade(i)`.
    pub open spec fn finished(width: nat, height: nat, shade: spec_fn(int) -> Rgb) -> Canvas {
        Canvas {
            width,
            height,
            bytes: Seq::new(4 * (width * height), |k: int| channel(shade(k / 4), k % 4)),
            written: Set::new(|i: int| 0 <= i < width * height),
            failed: false,
        }
    }

    pub open spec fn wf(self) -> bool {
        &&& self.bytes.len() == 4 * self.pixels()
        &&& forall|i: int| self.written.contains(i) ==> 0 <= i < self.pixels()
        &&& forall|i: int| #[trigger]
            self.written.contains(i) ==> self.bytes[4 * i + 3] == OPAQUE
    }

    /// Every pixel is written and no worker has failed.
    pub open spec fn complete(self) -> bool {
        &&& !self.failed
        &&& forall|i: int| 0 <= i < self.pixels() ==> self.written.contains(i)
    }

    /// Nothing more will happen to this render: whoever waits for it has
    /// been, or is being, told.
    pub open spec fn settled(self) -> bool {
        self.failed || self.complete()
    }

    /// Whether pixel `i` may be written now.
    pub open spec fn takes(self, i: int) -> bool {
        &&& !self.failed
        &&& 0 <= i < self.pixels()
        &&& !self.written.contains(i)
    }

    /// The canvas after pixel `i` was written with `px`: its four bytes
    /// change, and no others.
    pub open spec fn paint(self, i: int, px: Rgb) -> Canvas {
        Canvas {
            bytes: self.bytes.update(4 * i, px.r).update(4 * i + 1, px.g).update(
                4 * i + 2,
                px.b,
            ).update(4 * i + 3, OPAQUE),
            written: self.written.insert(i),
            ..self
        }
    }

    /// What a write of pixel `i` leaves behind: the painted canvas where the
    /// write is taken, the canvas as it was where it is turned away.
    pub open spec fn store(self, i: int, px: Rgb) -> Canvas {
        if self.takes(i) {
            self.paint(i, px)
        } else {
            self
        }
    }

    /// What the writer of pixel `i` is told: whether the write completed the
    /// image, or why it was turned away.
    pub open spec fn answer(self, i: int) -> Result<bool, RenderError> {
        if self.failed {
            Err(RenderError::WorkerFailed)
        } else if !(0 <= i < self.pixels()) {
            Err(RenderError::OutOfRange)
        } else if self.written.contains(i) {
            Err(RenderError::Repeated)
        } else {
            Ok(forall|j: int| 0 <= j < self.pixels() && j != i ==> self.written.contains(j))
        }
    }

    /// The canvas after a worker has failed. A settled render stays as it is.
    pub open spec fn abort(self) -> Canvas {
        if self.settled() {
            self
        } else {
            Canvas { failed: true, ..self }
        }
    }

    /// The canvas after the pixels named in `order` were written one after
    /// the other, each with the colour that `shade` gives it.
    pub open spec fn replay(self, order: Seq<int>, shade: spec_fn(int) -> Rgb) -> Canvas
        decreases order.len(),
    {
        if order.len() == 0 {
            self
        } else {
            self.replay(order.drop_last(), shade).store(order.last(), shade(order.last()))
        }
    }
}

/// Whether `order` names each of the pixels `0..n` once.
pub open spec fn visits_each_once(order: Seq<int>, n: nat) -> bool {
    &&& order.len() == n
    &&& order.no_duplicates()
    &&& forall|k: int| 0 <= k < order.len() ==> 0 <= #[trigger] order[k] < n
}

impl Canvas {
    /// A write, taken or turned away, leaves a well-formed canvas well-formed
    /// and the image's size as it was.
    pub proof fn lemma_store_keeps_wf(self, i: int, px: Rgb)
        requires
            self.wf(),
        ensures
            self.store(i, px).wf(),
            self.store(i, px).width == self.width,
            self.store(i, px).height == self.height,
            self.store(i, px).bytes.len() == self.bytes.len(),
    {
        let after = self.store(i, px);
        if self.takes(i) {
            assert forall|j: int| #[trigger] after.written.contains(j) implies after.bytes[4 * j
                + 3] == OPAQUE by {
                if j != i {
                    assert(self.written.contains(j));
                }
            }
        }
    }

    /// A write changes the four bytes of its own pixel and no others.
    pub proof fn lemma_store_is_local(self, i: int, px: Rgb, k: int)
        requires
            self.wf(),
            0 <= k < self.bytes.len(),
        ensures
            self.store(i, px).bytes[k] == if self.takes(i) && 4 * i <= k < 4 * i + 4 {
                channel(px, k - 4 * i)
            } else {
                self.bytes[k]
            },
    {
    }

    /// Writes of two different pixels can be made in either order: the canvas
    /// that results is the same.
    pub proof fn lemma_writes_commute(self, i: int, p: Rgb, j: int, q: Rgb)
        requires
            self.wf(),
            i != j,
        ensures
            self.store(i, p).store(j, q) == self.store(j, q).store(i, p),
    {
        let a = self.store(i, p).store(j, q);
        let b = self.store(j, q).store(i, p);
        assert(a.bytes =~= b.bytes);
        assert(a.written =~= b.written);
    }

    /// A settled render is final: it turns every write away, and neither a
    /// write nor a failure changes it. So the completion signal, which goes
    /// with the step that settles the render, is given once.
    pub proof fn lemma_settled_is_final(self, i: int, px: Rgb)
        requires
            self.settled(),
        ensures
            self.store(i, px) == self,
            self.abort() == self,
            self.answer(i) is Err,
    {
    }

    /// On a complete canvas every pixel's alpha byte is opaque.
    pub proof fn lemma_complete_is_opaque(self)
        requires
            self.wf(),
            self.complete(),
        ensures
            self.bytes.len() == 4 * (self.width * self.height),
            forall|i: int| 0 <= i < self.width * self.height ==> #[trigger] alpha(self.bytes, i)
                == OPAQUE,
    {
        assert forall|i: int| 0 <= i < self.width * self.height implies #[trigger] alpha(
            self.bytes,
            i,
        ) == OPAQUE by {
            assert(self.written.contains(i));
        }
    }

    /// What a blank canvas has become after the pixels of `order`, each named
    /// once at most, were written: those pixels hold their colours, the
    /// others are still zero.
    proof fn lemma_replay_partial(
        width: nat,
        height: nat,
        order: Seq<int>,
        shade: spec_fn(int) -> Rgb,
    )
        requires
            order.no_duplicates(),
            forall|k: int| 0 <= k < order.len() ==> 0 <= #[trigger] order[k] < width * height,
        ensures
            ({
                let c = Canvas::blank(width, height).replay(order, shade);
                &&& c.width == width
                &&& c.height == height
                &&& !c.failed
                &&& c.bytes.len() == 4 * (width * height)
                &&& forall|i: int| c.written.contains(i) <==> order.contains(i)
                &&& forall|k: int|
                    0 <= k < 4 * (width * height) ==> #[trigger] c.bytes[k] == if order.contains(
                        k / 4,
                    ) {
                        channel(shade(k / 4), k % 4)
                    } else {
                        0u8
                    }
            }),
        decreases order.len(),
    {
        let start = Canvas::blank(width, height);
        let c = start.replay(order, shade);
        if order.len() > 0 {
            let front = order.drop_last();
            let last = order.last();
            let before = start.replay(front, shade);
            Canvas::lemma_replay_partial(width, height, front, shade);
            assert(!front.contains(last));
            assert(0 <= last < width * height);
            assert(before.takes(last));
            assert forall|i: int| c.written.contains(i) <==> order.contains(i) by {
                if order.contains(i) {
                    let k = choose|k: int| 0 <= k < order.len() && order[k] == i;
                    if k < front.len() {
                        assert(front[k] == i);
                    }
                }
                if front.contains(i) {
                    let k = choose|k: int| 0 <= k < front.len() && front[k] == i;
                    assert(order[k] == i);
                }
                assert(order[order.len() - 1] == last);
            }
            assert forall|k: int| 0 <= k < 4 * (width * height) implies #[trigger] c.bytes[k]
                == if order.contains(k / 4) {
                channel(shade(k / 4), k % 4)
            } else {
                0u8
            } by {
                assert(order.contains(k / 4) <==> c.written.contains(k / 4));
                assert(front.contains(k / 4) <==> before.written.contains(k / 4));
            }
        } else {
            assert forall|i: int| !order.contains(i) by {}
        }
    }

    /// Whatever the order in which the pixels of an image are written, each
    /// once and each with the colour that `shade` gives it, the canvas that
    /// results is the same: the finished image of `shade`. However the work
    /// is dealt out to workers, and however their writes fall in time, they
    /// make up one such order.
    pub proof fn lemma_any_order_finishes(
        width: nat,
        height: nat,
        order: Seq<int>,
        shade: spec_fn(int) -> Rgb,
    )
        requires
            visits_each_once(order, width * height),
        ensures
            Canvas::blank(width, height).replay(order, shade) == Canvas::finished(
                width,
                height,
                shade,
            ),
            Canvas::finished(width, height, shade).complete(),
    {
        let n = width * height;
        let c = Canvas::blank(width, height).replay(order, shade);
        let goal = Canvas::finished(width, height, shade);
        Canvas::lemma_replay_partial(width, height, order, shade);
        let named = order.to_set();
        let all = set_int_range(0, n as int);
        order.unique_seq_to_set();
        lemma_int_range(0, n as int);
        assert(named.subset_of(all)) by {
            assert forall|i: int| named.contains(i) implies all.contains(i) by {
                let k = choose|k: int| 0 <= k < order.len() && order[k] == i;
                assert(0 <= order[k] < n);
            }
        }
        lemma_len_subset(named, all);
        lemma_subset_equality(named, all);
        assert forall|i: int| 0 <= i < n implies order.contains(i) by {
            assert(all.contains(i));
            assert(named.contains(i));
        }
        assert forall|i: int| c.written.contains(i) implies 0 <= i < n by {
            assert(order.contains(i));
            let k = choose|k: int| 0 <= k < order.len() && order[k] == i;
            assert(0 <= order[k] < n);
        }
        assert forall|i: int| c.written.contains(i) == goal.written.contains(i) by {
            if 0 <= i < n {
                assert(order.contains(i));
            }
        }
        assert(c.written =~= goal.written);
        assert forall|k: int| 0 <= k < c.bytes.len() implies c.bytes[k] == goal.bytes[k] by {
            assert(order.contains(k / 4));
        }
        assert(c.bytes =~= goal.bytes);
    }

    /// Two schedules that each write every pixel once, with the same colours,
    /// leave the same image.
    pub proof fn lemma_schedule_is_irrelevant(
        width: nat,
        height: nat,
        first: Seq<int>,
        second: Seq<int>,
        shade: spec_fn(int) -> Rgb,
    )
        requires
            visits_each_once(first, width * height),
            visits_each_once(second, width * height),
        ensures
            Canvas::blank(width, height).replay(first, shade) == Canvas::blank(
                width,
                height,
            ).replay(second, shade),
    {
        Canvas::lemma_any_order_finishes(width, height, first, shade);
        Canvas::lemma_any_order_finishes(width, height, second, shade);
    }
}

} // verus!
