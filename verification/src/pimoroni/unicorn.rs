//! The single-chip 16x16 board: one bus, and a frame buffer that holds a
//! framing byte and then the pixels in flat index order.

use crate::pimoroni::wire;
use crate::pimoroni::Dimensions;
use crate::pimoroni::Display;
use crate::pimoroni::Transfer;
use crate::pimoroni::TransferView;
use crate::RGB;
use vstd::prelude::*;

verus! {

/// The byte that opens every frame.
pub const SOF: u8 = 0x72;

pub const NUM_LEDS: usize = 256;

/// The frame buffer: the framing byte, then three bytes for each of the 256
/// pixels.
pub const BUF_SIZE: usize = 769;

/// The pause that the board needs after a frame, in milliseconds.
pub const DELAY: u64 = 9;

pub const WIDTH: usize = 16;

/// The bus that the board is wired to, unless its owner knows better.
pub const DEVICE: &'static str = "/dev/spidev0.0";

/// The clock rate of the bus, in hertz.
pub const MAX_SPEED_HZ: u32 = 9_000_000;

pub const BITS_PER_WORD: u8 = 8;

/// The clock polarity and phase of the bus, as the number of the SPI mode.
pub const SPI_MODE: u8 = 0;

pub const HEIGHT: usize = 16;

/// The colour of pixel `idx` in a frame buffer.
pub open spec fn pixel_at(frame: Seq<u8>, idx: int) -> RGB {
    RGB { r: frame[idx * 3 + 1], g: frame[idx * 3 + 2], b: frame[idx * 3 + 3] }
}

/// A frame buffer after pixel `idx` has been given the colour `rgb`.
pub open spec fn frame_with(frame: Seq<u8>, idx: int, rgb: RGB) -> Seq<u8> {
    frame.update(idx * 3 + 1, rgb.r).update(idx * 3 + 2, rgb.g).update(idx * 3 + 3, rgb.b)
}

/// A frame buffer with every LED off.
pub open spec fn blank_frame() -> Seq<u8> {
    Seq::new(
        BUF_SIZE as nat,
        |i: int|
            if i == 0 {
                SOF
            } else {
                0u8
            },
    )
}

/// The one transaction that shows a frame: the whole buffer, and then the
/// pause.
pub open spec fn frame_transfer(frame: Seq<u8>) -> Seq<TransferView> {
    seq![TransferView { bus: 0, bytes: frame, settle_millis: DELAY }]
}

/// The frame buffer of the single-chip board.
pub struct Unicorn {
    buffer: [u8; BUF_SIZE],
    dimensions: Dimensions,
}

impl Unicorn {
    /// The bytes of the frame buffer.
    pub closed spec fn frame(&self) -> Seq<u8> {
        self.buffer@
    }

    /// The size that the board reports.
    pub closed spec fn size(&self) -> Dimensions {
        self.dimensions
    }

    /// The board reports the size it has, and its frame starts with the
    /// framing byte.
    pub open spec fn valid(&self) -> bool {
        &&& self.size() == (Dimensions { width: WIDTH, height: HEIGHT })
        &&& self.frame()[0] == SOF
    }

    /// A valid board has a pixel for each triple of the frame buffer.
    pub proof fn lemma_size(&self)
        requires
            self.valid(),
        ensures
            self.size().area() == NUM_LEDS,
    {
        let d = self.size();
        assert(d.width * d.height == 256) by (nonlinear_arith)
            requires
                d.width == 16,
                d.height == 16,
        ;
    }

    /// The frame buffer has the framing byte and three bytes for each pixel.
    pub proof fn lemma_frame_size(&self)
        ensures
            self.frame().len() == BUF_SIZE,
    {
    }

    /// A board with a blank frame buffer, and the transfer that shows it.
    pub fn new() -> (created: (Unicorn, Vec<Transfer>))
        ensures
            created.0.valid(),
            created.0.frame() == blank_frame(),
            wire(created.1@) == frame_transfer(blank_frame()),
    {
        let mut display = Unicorn {
            buffer: [0; BUF_SIZE],
            dimensions: Dimensions { width: WIDTH, height: HEIGHT },
        };
        let sent = display.reset();
        (display, sent)
    }

    /// Gives the pixel in column `x` of row `y` the colour `rgb`.
    pub fn set_xy(&mut self, x: usize, y: usize, rgb: &RGB)
        requires
            x < WIDTH,
            y < HEIGHT,
        ensures
            final(self).frame() == frame_with(old(self).frame(), x + y * WIDTH, *rgb),
            final(self).size() == old(self).size(),
    {
        let idx = x + y * 16;
        self.set_idx(idx, rgb);
    }

    /// Writes the three bytes of `rgb` into the triple of pixel `idx`, and
    /// nowhere else.
    pub fn set_idx(&mut self, idx: usize, rgb: &RGB)
        requires
            idx < NUM_LEDS,
        ensures
            final(self).frame() == frame_with(old(self).frame(), idx as int, *rgb),
            final(self).size() == old(self).size(),
    {
        // The framing byte comes first, so the triples start at offset 1.
        let i = idx * 3 + 1;
        self.buffer[i] = rgb.r;
        self.buffer[i + 1] = rgb.g;
        self.buffer[i + 2] = rgb.b;
    }

    /// The transfer that shows the frame buffer.
    pub fn flush(&mut self) -> (sent: Vec<Transfer>)
        ensures
            *final(self) == *old(self),
            wire(sent@) == frame_transfer(old(self).frame()),
    {
        let bytes = vstd::slice::slice_to_vec(&self.buffer);
        let mut sent: Vec<Transfer> = Vec::new();
        sent.push(Transfer { bus: 0, bytes, settle_millis: DELAY });
        assert(wire(sent@) =~= frame_transfer(self.frame()));
        sent
    }

    /// Blanks the frame buffer and hands back the transfer that shows it.
    pub fn reset(&mut self) -> (sent: Vec<Transfer>)
        ensures
            final(self).frame() == blank_frame(),
            final(self).size() == old(self).size(),
            wire(sent@) == frame_transfer(blank_frame()),
    {
        self.buffer = [0; BUF_SIZE];
        self.buffer[0] = SOF;
        assert(self.frame() =~= blank_frame());
        self.flush()
    }
}

impl Default for Unicorn {
    /// A board with a blank frame buffer.
    fn default() -> (display: Unicorn)
        ensures
            display.valid(),
            display.frame() == blank_frame(),
    {
        Unicorn::new().0
    }
}

/// Colouring one pixel changes that pixel's colour and no other's, and
/// leaves the framing byte alone.
pub proof fn lemma_frame_with_pixels(frame: Seq<u8>, idx: int, rgb: RGB)
    requires
        frame.len() == BUF_SIZE,
        0 <= idx < NUM_LEDS,
    ensures
        frame_with(frame, idx, rgb).len() == BUF_SIZE,
        frame_with(frame, idx, rgb)[0] == frame[0],
        pixel_at(frame_with(frame, idx, rgb), idx) == rgb,
        forall|j: int|
            0 <= j < NUM_LEDS && j != idx ==> #[trigger] pixel_at(frame_with(frame, idx, rgb), j)
                == pixel_at(frame, j),
{
}

impl Display for Unicorn {
    open spec fn wf(&self) -> bool {
        self.valid()
    }

    open spec fn dims(&self) -> Dimensions {
        self.size()
    }

    /// Pixels are numbered row by row.
    open spec fn index_of(x: int, y: int) -> int {
        x + y * WIDTH
    }

    open spec fn coordinates_of(idx: int) -> (int, int) {
        (idx % (WIDTH as int), idx / (WIDTH as int))
    }

    open spec fn pixels(&self) -> Seq<RGB> {
        Seq::new(NUM_LEDS as nat, |i: int| pixel_at(self.frame(), i))
    }

    open spec fn frame_transfers(&self) -> Seq<TransferView> {
        frame_transfer(self.frame())
    }

    proof fn frame_shape(&self) {
        self.lemma_size();
    }

    fn set_xy(&mut self, x: usize, y: usize, rgb: &RGB) {
        proof {
            self.lemma_frame_size();
            lemma_frame_with_pixels(self.frame(), x + y * WIDTH, *rgb);
        }
        Unicorn::set_xy(self, x, y, rgb);
        assert(self.pixels() =~= old(self).pixels().update(x + y * WIDTH, *rgb));
    }

    fn set_idx(&mut self, idx: usize, rgb: &RGB) {
        proof {
            self.lemma_size();
            self.lemma_frame_size();
            lemma_frame_with_pixels(self.frame(), idx as int, *rgb);
        }
        Unicorn::set_idx(self, idx, rgb);
        assert(self.pixels() =~= old(self).pixels().update(idx as int, *rgb));
    }

    fn flush(&mut self) -> (sent: Vec<Transfer>) {
        Unicorn::flush(self)
    }

    fn reset(&mut self) -> (sent: Vec<Transfer>) {
        let sent = Unicorn::reset(self);
        proof {
            self.lemma_size();
            assert(wire(sent@)[0] == frame_transfer(blank_frame())[0]);
        }
        sent
    }

    fn dimensions(&self) -> (dimensions: &Dimensions) {
        &self.dimensions
    }
}

} // verus!
