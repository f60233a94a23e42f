//! The display contract that every LED-matrix board meets, and the values it
//! exchanges with the code that owns the buses.

pub mod unicorn;
pub mod unicornmini;

use crate::RGB;
use vstd::prelude::*;

verus! {

/// The size of a rectangular LED matrix.
#[derive(Copy, Clone)]
pub struct Dimensions {
    pub width: usize,
    pub height: usize,
}

impl Dimensions {
    /// The number of pixels, as a mathematical integer.
    pub open spec fn area(&self) -> int {
        self.width * self.height
    }

    /// The number of pixels of the matrix.
    pub fn num_px(&self) -> (n: usize)
        requires
            self.area() <= usize::MAX,
        ensures
            n == self.area(),
    {
        self.width * self.height
    }
}

/// One write to one bus, and the pause the hardware needs after it.
pub struct Transfer {
    /// Which of the board's buses the bytes go to, counted from zero.
    pub bus: usize,
    /// The bytes of the transaction, framing included.
    pub bytes: Vec<u8>,
    /// How long to wait after the write, in milliseconds.
    pub settle_millis: u64,
}

/// A transfer as a plain value.
pub struct TransferView {
    pub bus: usize,
    pub bytes: Seq<u8>,
    pub settle_millis: u64,
}

impl View for Transfer {
    type V = TransferView;

    open spec fn view(&self) -> TransferView {
        TransferView { bus: self.bus, bytes: self.bytes@, settle_millis: self.settle_millis }
    }
}

/// The plain values of a list of transfers, in order.
pub open spec fn wire(transfers: Seq<Transfer>) -> Seq<TransferView> {
    Seq::new(transfers.len(), |i: int| transfers[i]@)
}

/// The plain values of two lists, one after the other, are those of the
/// joined list.
pub proof fn lemma_wire_of_joined(first: Seq<Transfer>, second: Seq<Transfer>)
    ensures
        wire(first + second) == wire(first) + wire(second),
{
    assert(wire(first + second) =~= wire(first) + wire(second));
}

/// What a board offers to the code that draws on it.
///
/// A board keeps a frame buffer. Drawing changes the buffer only; `flush` and
/// `reset` hand back the bus transfers that bring the LEDs in line with it,
/// for the owner of the buses to perform in order.
pub trait Display {
    /// Whether the frame buffer is in a state the board's methods accept.
    spec fn wf(&self) -> bool;

    /// The size of the matrix.
    spec fn dims(&self) -> Dimensions;

    /// The flat index of the pixel in column `x` of row `y`.
    spec fn index_of(x: int, y: int) -> int;

    /// The column and the row of the pixel with flat index `idx`.
    spec fn coordinates_of(idx: int) -> (int, int);

    /// The colour that the frame buffer holds for each pixel, by flat index.
    spec fn pixels(&self) -> Seq<RGB>;

    /// The transfers that put the frame buffer on the LEDs.
    spec fn frame_transfers(&self) -> Seq<TransferView>;

    /// A valid board has one colour per pixel, and `index_of` numbers the
    /// pixels of the matrix without gaps or repeats: every coordinate has an
    /// index, no two share one, and every index belongs to a coordinate.
    proof fn frame_shape(&self)
        requires
            self.wf(),
        ensures
            self.pixels().len() == self.dims().area(),
            self.dims().area() <= usize::MAX,
            forall|x: int, y: int|
                0 <= x < self.dims().width && 0 <= y < self.dims().height ==> 0
                    <= #[trigger] Self::index_of(x, y) < self.dims().area(),
            forall|x1: int, y1: int, x2: int, y2: int|
                0 <= x1 < self.dims().width && 0 <= y1 < self.dims().height && 0 <= x2
                    < self.dims().width && 0 <= y2 < self.dims().height && #[trigger] Self::index_of(
                    x1,
                    y1,
                ) == #[trigger] Self::index_of(x2, y2) ==> x1 == x2 && y1 == y2,
            forall|idx: int|
                0 <= idx < self.dims().area() ==> {
                    let (x, y) = #[trigger] Self::coordinates_of(idx);
                    0 <= x < self.dims().width && 0 <= y < self.dims().height && Self::index_of(x, y)
                        == idx
                },
    ;

    /// Gives the pixel in column `x` of row `y` the colour `rgb`.
    fn set_xy(&mut self, x: usize, y: usize, rgb: &RGB)
        requires
            old(self).wf(),
            x < old(self).dims().width,
            y < old(self).dims().height,
        ensures
            final(self).wf(),
            final(self).dims() == old(self).dims(),
            final(self).pixels() == old(self).pixels().update(
                Self::index_of(x as int, y as int),
                *rgb,
            ),
    ;

    /// Gives the pixel with flat index `idx` the colour `rgb`.
    fn set_idx(&mut self, idx: usize, rgb: &RGB)
        requires
            old(self).wf(),
            idx < old(self).dims().area(),
        ensures
            final(self).wf(),
            final(self).dims() == old(self).dims(),
            final(self).pixels() == old(self).pixels().update(idx as int, *rgb),
    ;

    /// The transfers that show the frame buffer, which stays as it is.
    fn flush(&mut self) -> (sent: Vec<Transfer>)
        requires
            old(self).wf(),
        ensures
            final(self).wf(),
            final(self).dims() == old(self).dims(),
            final(self).pixels() == old(self).pixels(),
            final(self).frame_transfers() == old(self).frame_transfers(),
            wire(sent@) == old(self).frame_transfers(),
    ;

    /// Turns every pixel off. The transfers handed back bring the board to
    /// its initial state and include those of the blank frame.
    fn reset(&mut self) -> (sent: Vec<Transfer>)
        requires
            old(self).wf(),
        ensures
            final(self).wf(),
            final(self).dims() == old(self).dims(),
            final(self).pixels().len() == old(self).dims().area(),
            forall|i: int|
                0 <= i < final(self).pixels().len() ==> #[trigger] final(self).pixels()[i] == (RGB {
                    r: 0,
                    g: 0,
                    b: 0,
                }),
            forall|k: int|
                0 <= k < final(self).frame_transfers().len() ==> wire(sent@).contains(
                    #[trigger] final(self).frame_transfers()[k],
                ),
    ;

    /// The size of the matrix.
    fn dimensions(&self) -> (dimensions: &Dimensions)
        requires
            self.wf(),
        ensures
            *dimensions == self.dims(),
    ;
}

} // verus!
