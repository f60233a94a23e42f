//! The dual-chip 17x7 board: two LED driver chips, each on a bus of its own,
//! a fixed table from pixels to buffer offsets, and four buttons.

use crate::pimoroni::lemma_wire_of_joined;
use crate::pimoroni::wire;
use crate::pimoroni::Dimensions;
use crate::pimoroni::Display;
use crate::pimoroni::Transfer;
use crate::pimoroni::TransferView;
use crate::RGB;
use vstd::prelude::*;

verus! {

// Commands of the LED driver chip.
pub const CMD_SOFT_RESET: [u8; 1] = [0xCC];

pub const CMD_GLOBAL_BRIGHTNESS: [u8; 2] = [0x37, 0x01];

pub const CMD_COM_PIN_CTRL: [u8; 2] = [0x41, 0xff];

pub const CMD_ROW_PIN_CTRL: [u8; 5] = [0x42, 0xff, 0xff, 0xff, 0xff];

pub const CMD_WRITE_DISPLAY: [u8; 2] = [0x80, 0x00];

pub const CMD_SYSTEM_CTRL_OFF: [u8; 2] = [0x35, 0x00];

pub const CMD_SYSTEM_CTRL_ON: [u8; 2] = [0x35, 0x03];

pub const CMD_SCROLL_CTRL: [u8; 2] = [0x20, 0x00];

/// For each pixel, where its red, green and blue bytes lie in the frame
/// buffer.
pub const LUT: [[usize; 3]; 119] = [
    [139, 138, 137],
    [223, 222, 221],
    [167, 166, 165],
    [195, 194, 193],
    [111, 110, 109],
    [55, 54, 53],
    [83, 82, 81],
    [136, 135, 134],
    [220, 219, 218],
    [164, 163, 162],
    [192, 191, 190],
    [108, 107, 106],
    [52, 51, 50],
    [80, 79, 78],
    [113, 115, 114],
    [197, 199, 198],
    [141, 143, 142],
    [169, 171, 170],
    [85, 87, 86],
    [29, 31, 30],
    [57, 59, 58],
    [116, 118, 117],
    [200, 202, 201],
    [144, 146, 145],
    [172, 174, 173],
    [88, 90, 89],
    [32, 34, 33],
    [60, 62, 61],
    [119, 121, 120],
    [203, 205, 204],
    [147, 149, 148],
    [175, 177, 176],
    [91, 93, 92],
    [35, 37, 36],
    [63, 65, 64],
    [122, 124, 123],
    [206, 208, 207],
    [150, 152, 151],
    [178, 180, 179],
    [94, 96, 95],
    [38, 40, 39],
    [66, 68, 67],
    [125, 127, 126],
    [209, 211, 210],
    [153, 155, 154],
    [181, 183, 182],
    [97, 99, 98],
    [41, 43, 42],
    [69, 71, 70],
    [128, 130, 129],
    [212, 214, 213],
    [156, 158, 157],
    [184, 186, 185],
    [100, 102, 101],
    [44, 46, 45],
    [72, 74, 73],
    [131, 133, 132],
    [215, 217, 216],
    [159, 161, 160],
    [187, 189, 188],
    [103, 105, 104],
    [47, 49, 48],
    [75, 77, 76],
    [363, 362, 361],
    [447, 446, 445],
    [391, 390, 389],
    [419, 418, 417],
    [335, 334, 333],
    [279, 278, 277],
    [307, 306, 305],
    [360, 359, 358],
    [444, 443, 442],
    [388, 387, 386],
    [416, 415, 414],
    [332, 331, 330],
    [276, 275, 274],
    [304, 303, 302],
    [337, 339, 338],
    [421, 423, 422],
    [365, 367, 366],
    [393, 395, 394],
    [309, 311, 310],
    [253, 255, 254],
    [281, 283, 282],
    [340, 342, 341],
    [424, 426, 425],
    [368, 370, 369],
    [396, 398, 397],
    [312, 314, 313],
    [256, 258, 257],
    [284, 286, 285],
    [343, 345, 344],
    [427, 429, 428],
    [371, 373, 372],
    [399, 401, 400],
    [315, 317, 316],
    [259, 261, 260],
    [287, 289, 288],
    [346, 348, 347],
    [430, 432, 431],
    [374, 376, 375],
    [402, 404, 403],
    [318, 320, 319],
    [262, 264, 263],
    [290, 292, 291],
    [349, 351, 350],
    [433, 435, 434],
    [377, 379, 378],
    [405, 407, 406],
    [321, 323, 322],
    [265, 267, 266],
    [293, 295, 294],
    [352, 354, 353],
    [436, 438, 437],
    [380, 382, 381],
    [408, 410, 409],
    [324, 326, 325],
    [268, 270, 269],
    [296, 298, 297],
];

/// The display memory of one chip, in bytes: 28 rows of 8.
pub const BUF_SIZE: usize = 224;

/// The frame buffer: the display memory of both chips, one after the other.
pub const FRAME_SIZE: usize = 448;

pub const NUM_LEDS: usize = 119;

pub const WIDTH: usize = 17;

/// The bus of the first chip, unless the board's owner knows better.
pub const DEVICE: &'static str = "/dev/spidev0.0";

/// The bus of the second chip, unless the board's owner knows better.
pub const SECOND_DEVICE: &'static str = "/dev/spidev0.1";

/// The clock rate of both buses, in hertz.
pub const MAX_SPEED_HZ: u32 = 600_000;

pub const BITS_PER_WORD: u8 = 8;

/// The clock polarity and phase of both buses, as the number of the SPI
/// mode.
pub const SPI_MODE: u8 = 0;

pub const HEIGHT: usize = 7;

/// The 28-byte row of a chip's memory that drives matrix row `y`.
pub open spec fn row_of(y: int) -> int {
    if y == 0 {
        4
    } else if y == 1 {
        7
    } else if y == 2 {
        5
    } else if y == 3 {
        6
    } else if y == 4 {
        3
    } else if y == 5 {
        1
    } else {
        2
    }
}

/// The byte within a row for a channel (0 red, 1 green, 2 blue) of the
/// `column`-th column that a chip drives.
pub open spec fn slot_of(column: int, channel: int) -> int {
    if column == 0 {
        27 - channel
    } else if column == 1 {
        24 - channel
    } else {
        3 * (column - 2) + 1 + (if channel == 0 {
            0int
        } else if channel == 1 {
            2
        } else {
            1
        })
    }
}

/// The board's wiring in closed form: the first chip drives columns 0 to 8,
/// the second columns 9 to 16.
pub open spec fn wired_offset(idx: int, channel: int) -> int {
    let x = idx / 7;
    let y = idx % 7;
    let chip = if x < 9 {
        0int
    } else {
        1
    };
    BUF_SIZE * chip + 28 * row_of(y) + slot_of(x - 9 * chip, channel)
}

/// The offset that the table gives for a channel (0 red, 1 green, 2 blue)
/// of pixel `idx`.
#[verifier::opaque]
pub open spec fn table_offset(idx: int, channel: int) -> int {
    LUT[idx][channel] as int
}

/// The table holds the wiring: every entry is the offset that the closed form
/// gives, and lies inside the frame buffer.
pub proof fn lemma_table_is_wiring()
    ensures
        forall|idx: int, channel: int|
            0 <= idx < NUM_LEDS && 0 <= channel < 3 ==> #[trigger] table_offset(idx, channel)
                == wired_offset(idx, channel),
        forall|idx: int, channel: int|
            0 <= idx < NUM_LEDS && 0 <= channel < 3 ==> 0 <= #[trigger] table_offset(idx, channel)
                < FRAME_SIZE,
{
    reveal(table_offset);
    assert forall|idx: int, channel: int| 0 <= idx < NUM_LEDS && 0 <= channel < 3 implies LUT[idx][channel]
        == wired_offset(idx, channel) by {}
}

/// The closed form sends different channels, and different pixels, to
/// different offsets.
pub proof fn lemma_wired_offset_injective(i: int, c: int, j: int, d: int)
    requires
        0 <= i < NUM_LEDS,
        0 <= c < 3,
        0 <= j < NUM_LEDS,
        0 <= d < 3,
        wired_offset(i, c) == wired_offset(j, d),
    ensures
        i == j,
        c == d,
{
}

/// No byte of the frame buffer serves two channels or two pixels.
pub proof fn lemma_table_injective(i: int, c: int, j: int, d: int)
    requires
        0 <= i < NUM_LEDS,
        0 <= c < 3,
        0 <= j < NUM_LEDS,
        0 <= d < 3,
        table_offset(i, c) == table_offset(j, d),
    ensures
        i == j,
        c == d,
{
    lemma_table_is_wiring();
    lemma_wired_offset_injective(i, c, j, d);
}

/// Reads the table: the offsets of the red, green and blue bytes of pixel
/// `idx`.
pub fn offsets(idx: usize) -> (found: (usize, usize, usize))
    requires
        idx < NUM_LEDS,
    ensures
        found.0 == table_offset(idx as int, 0),
        found.1 == table_offset(idx as int, 1),
        found.2 == table_offset(idx as int, 2),
        found.0 < FRAME_SIZE,
        found.1 < FRAME_SIZE,
        found.2 < FRAME_SIZE,
{
    proof {
        lemma_table_is_wiring();
        reveal(table_offset);
    }
    let entry = LUT[idx];
    (entry[0], entry[1], entry[2])
}

/// The colour of pixel `idx` in a frame buffer.
pub open spec fn pixel_at(frame: Seq<u8>, idx: int) -> RGB {
    RGB {
        r: frame[table_offset(idx, 0)],
        g: frame[table_offset(idx, 1)],
        b: frame[table_offset(idx, 2)],
    }
}

/// A frame buffer after pixel `idx` has been given the colour `rgb`.
pub open spec fn frame_with(frame: Seq<u8>, idx: int, rgb: RGB) -> Seq<u8> {
    frame.update(table_offset(idx, 0), rgb.r).update(table_offset(idx, 1), rgb.g).update(
        table_offset(idx, 2),
        rgb.b,
    )
}

/// The bytes that go to one chip: the prefix alone where there is no data,
/// else the prefix and the chip's part of the data.
pub open spec fn chip_bytes(prefix: Seq<u8>, data: Seq<u8>, chip: int) -> Seq<u8> {
    if data.len() > 0 {
        prefix + data.subrange(chip * BUF_SIZE, (chip + 1) * BUF_SIZE)
    } else {
        prefix
    }
}

/// One write of `prefix` and `data` to both chips, the first chip first.
pub open spec fn chip_transfers(prefix: Seq<u8>, data: Seq<u8>) -> Seq<TransferView> {
    seq![
        TransferView { bus: 0, bytes: chip_bytes(prefix, data, 0), settle_millis: 0 },
        TransferView { bus: 1, bytes: chip_bytes(prefix, data, 1), settle_millis: 0 },
    ]
}

/// A command without data, to both chips.
pub open spec fn command(bytes: Seq<u8>) -> Seq<TransferView> {
    chip_transfers(bytes, Seq::empty())
}

/// A frame buffer with every LED off.
pub open spec fn blank_frame() -> Seq<u8> {
    Seq::new(FRAME_SIZE as nat, |i: int| 0u8)
}

/// The start-up sequence of the chips, which leaves the display on and blank.
pub open spec fn reset_transfers() -> Seq<TransferView> {
    command(CMD_SOFT_RESET@) + command(CMD_GLOBAL_BRIGHTNESS@) + command(CMD_SCROLL_CTRL@)
        + command(CMD_SYSTEM_CTRL_OFF@) + chip_transfers(CMD_WRITE_DISPLAY@, blank_frame())
        + command(CMD_COM_PIN_CTRL@) + command(CMD_ROW_PIN_CTRL@) + command(CMD_SYSTEM_CTRL_ON@)
}

/// The channels of two different pixels, and two different channels of one
/// pixel, lie at different offsets.
pub proof fn lemma_offsets_distinct(i: int, j: int)
    requires
        0 <= i < NUM_LEDS,
        0 <= j < NUM_LEDS,
    ensures
        forall|c: int, d: int|
            0 <= c < 3 && 0 <= d < 3 && (i != j || c != d) ==> #[trigger] table_offset(i, c)
                != #[trigger] table_offset(j, d),
{
    assert forall|c: int, d: int| 0 <= c < 3 && 0 <= d < 3 && (i != j || c != d) implies #[trigger] table_offset(
        i,
        c,
    ) != #[trigger] table_offset(j, d) by {
        if table_offset(i, c) == table_offset(j, d) {
            lemma_table_injective(i, c, j, d);
        }
    }
}

/// Colouring one pixel changes that pixel's colour and no other's.
pub proof fn lemma_frame_with_pixels(frame: Seq<u8>, idx: int, rgb: RGB)
    requires
        frame.len() == FRAME_SIZE,
        0 <= idx < NUM_LEDS,
    ensures
        frame_with(frame, idx, rgb).len() == FRAME_SIZE,
        pixel_at(frame_with(frame, idx, rgb), idx) == rgb,
        forall|j: int|
            0 <= j < NUM_LEDS && j != idx ==> #[trigger] pixel_at(frame_with(frame, idx, rgb), j)
                == pixel_at(frame, j),
{
    lemma_table_is_wiring();
    lemma_offsets_distinct(idx, idx);
    assert forall|j: int| 0 <= j < NUM_LEDS && j != idx implies #[trigger] pixel_at(
        frame_with(frame, idx, rgb),
        j,
    ) == pixel_at(frame, j) by {
        lemma_offsets_distinct(j, idx);
    }
}

/// The frame buffer of the dual-chip board.
pub struct UnicornMini {
    data_buf: [u8; FRAME_SIZE],
    dimensions: Dimensions,
}

impl UnicornMini {
    /// The bytes of the frame buffer.
    pub closed spec fn frame(&self) -> Seq<u8> {
        self.data_buf@
    }

    /// The size that the board reports.
    pub closed spec fn size(&self) -> Dimensions {
        self.dimensions
    }

    /// The board reports the size it has.
    pub open spec fn valid(&self) -> bool {
        self.size() == (Dimensions { width: WIDTH, height: HEIGHT })
    }

    /// A valid board has as many pixels as the table has entries.
    pub proof fn lemma_size(&self)
        requires
            self.valid(),
        ensures
            self.size().area() == NUM_LEDS,
    {
        let d = self.size();
        assert(d.width * d.height == 119) by (nonlinear_arith)
            requires
                d.width == 17,
                d.height == 7,
        ;
    }

    /// The frame buffer has a byte for each address of both chips.
    pub proof fn lemma_frame_size(&self)
        ensures
            self.frame().len() == FRAME_SIZE,
    {
    }

    /// A board with a blank frame buffer, and the transfers that start its
    /// chips.
    pub fn new() -> (created: (UnicornMini, Vec<Transfer>))
        ensures
            created.0.valid(),
            created.0.frame() == blank_frame(),
            wire(created.1@) == reset_transfers(),
    {
        let mut um = UnicornMini {
            data_buf: [0; FRAME_SIZE],
            dimensions: Dimensions { width: WIDTH, height: HEIGHT },
        };
        let sent = um.reset();
        (um, sent)
    }

    /// Blanks the frame buffer and hands back the start-up sequence of the
    /// chips, in the order in which it must reach them.
    pub fn reset(&mut self) -> (sent: Vec<Transfer>)
        ensures
            final(self).frame() == blank_frame(),
            final(self).size() == old(self).size(),
            wire(sent@) == reset_transfers(),
    {
        self.data_buf = [0; FRAME_SIZE];
        assert(self.frame() =~= blank_frame());
        let none: [u8; 0] = [];
        assert(none@ =~= Seq::<u8>::empty());
        let mut sent = self.write_prefix(&CMD_SOFT_RESET, Some(&none));
        self.append_step(&mut sent, &CMD_GLOBAL_BRIGHTNESS, Some(&none));
        self.append_step(&mut sent, &CMD_SCROLL_CTRL, Some(&none));
        self.append_step(&mut sent, &CMD_SYSTEM_CTRL_OFF, Some(&none));
        self.append_step(&mut sent, &CMD_WRITE_DISPLAY, None);
        self.append_step(&mut sent, &CMD_COM_PIN_CTRL, Some(&none));
        self.append_step(&mut sent, &CMD_ROW_PIN_CTRL, Some(&none));
        self.append_step(&mut sent, &CMD_SYSTEM_CTRL_ON, Some(&none));
        sent
    }

    /// Adds one more write to both chips to a sequence of transfers.
    fn append_step(&self, sent: &mut Vec<Transfer>, prefix: &[u8], data: Option<&[u8]>)
        requires
            data matches Some(d) ==> d@.len() == 0 || d@.len() >= FRAME_SIZE,
        ensures
            wire(final(sent)@) == wire(old(sent)@) + chip_transfers(
                prefix@,
                match data {
                    Some(d) => d@,
                    None => self.frame(),
                },
            ),
    {
        let mut step = self.write_prefix(prefix, data);
        proof {
            lemma_wire_of_joined(sent@, step@);
        }
        sent.append(&mut step);
    }

    /// Gives the pixel in column `x` of row `y` the colour `rgb`.
    pub fn set_xy(&mut self, x: usize, y: usize, rgb: &RGB)
        requires
            x < WIDTH,
            y < HEIGHT,
        ensures
            final(self).frame() == frame_with(old(self).frame(), x * HEIGHT + y, *rgb),
            final(self).size() == old(self).size(),
    {
        let idx = x * 7 + y;
        self.set_idx(idx, rgb);
    }

    /// Writes the three bytes of `rgb` at the offsets that the table gives
    /// for pixel `idx`, and nowhere else.
    pub fn set_idx(&mut self, idx: usize, rgb: &RGB)
        requires
            idx < NUM_LEDS,
        ensures
            final(self).frame() == frame_with(old(self).frame(), idx as int, *rgb),
            final(self).size() == old(self).size(),
    {
        let (ir, ig, ib) = offsets(idx);
        self.data_buf[ir] = rgb.r;
        self.data_buf[ig] = rgb.g;
        self.data_buf[ib] = rgb.b;
    }

    /// The transfers that show the frame buffer: one write-display
    /// transaction for each chip.
    pub fn flush(&mut self) -> (sent: Vec<Transfer>)
        ensures
            *final(self) == *old(self),
            wire(sent@) == chip_transfers(CMD_WRITE_DISPLAY@, old(self).frame()),
    {
        self.write(None)
    }

    /// The part of the frame buffer that belongs to chip `buffer_idx`.
    fn buf_offset(buffer_idx: usize) -> (range: core::ops::Range<usize>)
        requires
            buffer_idx < 2,
        ensures
            range.start == buffer_idx * BUF_SIZE,
            range.end == (buffer_idx + 1) * BUF_SIZE,
    {
        buffer_idx * BUF_SIZE..(buffer_idx + 1) * BUF_SIZE
    }

    fn write(&self, data: Option<&[u8]>) -> (sent: Vec<Transfer>)
        requires
            data matches Some(d) ==> d@.len() == 0 || d@.len() >= FRAME_SIZE,
        ensures
            wire(sent@) == chip_transfers(
                CMD_WRITE_DISPLAY@,
                match data {
                    Some(d) => d@,
                    None => self.frame(),
                },
            ),
    {
        self.write_prefix(&CMD_WRITE_DISPLAY, data)
    }

    /// Frames `data`, or the frame buffer where there is none, for both
    /// chips: each gets `prefix` and then its half. Empty data sends the bare
    /// prefix.
    pub fn write_prefix(&self, prefix: &[u8], data: Option<&[u8]>) -> (sent: Vec<Transfer>)
        requires
            data matches Some(d) ==> d@.len() == 0 || d@.len() >= FRAME_SIZE,
        ensures
            wire(sent@) == chip_transfers(
                prefix@,
                match data {
                    Some(d) => d@,
                    None => self.frame(),
                },
            ),
    {
        let data: &[u8] = match data {
            Some(d) => d,
            None => &self.data_buf,
        };
        let mut sent: Vec<Transfer> = Vec::new();
        for i in 0..2usize
            invariant
                data@.len() == 0 || data@.len() >= FRAME_SIZE,
                sent@.len() == i,
                forall|k: int|
                    0 <= k < i ==> (#[trigger] sent@[k])@ == (TransferView {
                        bus: k as usize,
                        bytes: chip_bytes(prefix@, data@, k),
                        settle_millis: 0,
                    }),
        {
            let mut bytes = vstd::slice::slice_to_vec(prefix);
            if data.len() > 0 {
                let chunk = &data[Self::buf_offset(i)];
                bytes.extend_from_slice(chunk);
            }
            assert(bytes@ =~= chip_bytes(prefix@, data@, i as int));
            sent.push(Transfer { bus: i, bytes, settle_millis: 0 });
        }
        assert(wire(sent@) =~= chip_transfers(prefix@, data@));
        sent
    }
}

impl Display for UnicornMini {
    open spec fn wf(&self) -> bool {
        self.valid()
    }

    open spec fn dims(&self) -> Dimensions {
        self.size()
    }

    /// Pixels are numbered column by column.
    open spec fn index_of(x: int, y: int) -> int {
        x * HEIGHT + y
    }

    open spec fn coordinates_of(idx: int) -> (int, int) {
        (idx / (HEIGHT as int), idx % (HEIGHT as int))
    }

    open spec fn pixels(&self) -> Seq<RGB> {
        Seq::new(NUM_LEDS as nat, |i: int| pixel_at(self.frame(), i))
    }

    open spec fn frame_transfers(&self) -> Seq<TransferView> {
        chip_transfers(CMD_WRITE_DISPLAY@, self.frame())
    }

    proof fn frame_shape(&self) {
        self.lemma_size();
    }

    fn set_xy(&mut self, x: usize, y: usize, rgb: &RGB) {
        proof {
            self.lemma_frame_size();
            lemma_frame_with_pixels(self.frame(), x * HEIGHT + y, *rgb);
        }
        UnicornMini::set_xy(self, x, y, rgb);
        assert(self.pixels() =~= old(self).pixels().update(x * HEIGHT + y, *rgb));
    }

    fn set_idx(&mut self, idx: usize, rgb: &RGB) {
        proof {
            self.lemma_size();
            self.lemma_frame_size();
            lemma_frame_with_pixels(self.frame(), idx as int, *rgb);
        }
        UnicornMini::set_idx(self, idx, rgb);
        assert(self.pixels() =~= old(self).pixels().update(idx as int, *rgb));
    }

    fn flush(&mut self) -> (sent: Vec<Transfer>) {
        UnicornMini::flush(self)
    }

    fn reset(&mut self) -> (sent: Vec<Transfer>) {
        let sent = UnicornMini::reset(self);
        proof {
            self.lemma_size();
            lemma_table_is_wiring();
            let shown = chip_transfers(CMD_WRITE_DISPLAY@, blank_frame());
            assert(wire(sent@)[8] == shown[0]);
            assert(wire(sent@)[9] == shown[1]);
        }
        sent
    }

    fn dimensions(&self) -> (dimensions: &Dimensions) {
        &self.dimensions
    }
}

/// The buttons of the board.
#[derive(Debug, Clone, Copy, PartialEq, Eq, Structural)]
pub enum Button {
    A,
    B,
    X,
    Y,
}

/// A button press counts only if more than this many nanoseconds have passed
/// since the last one that counted.
pub const DEBOUNCE_NANOS: u128 = 500_000_000;

impl Button {
    /// The input pin that the button is wired to.
    pub open spec fn wired_pin(&self) -> u8 {
        match self {
            Button::A => 5,
            Button::B => 6,
            Button::X => 16,
            Button::Y => 24,
        }
    }

    /// The input pin that the button is wired to.
    pub fn pin(&self) -> (pin: u8)
        ensures
            pin == self.wired_pin(),
    {
        match self {
            Button::A => 5,
            Button::B => 6,
            Button::X => 16,
            Button::Y => 24,
        }
    }

    /// The button wired to `pin`, if there is one.
    pub fn from_pin(pin: u8) -> (button: Option<Button>)
        ensures
            match button {
                Some(b) => b.wired_pin() == pin,
                None => forall|b: Button| b.wired_pin() != pin,
            },
    {
        if pin == 5 {
            Some(Button::A)
        } else if pin == 6 {
            Some(Button::B)
        } else if pin == 16 {
            Some(Button::X)
        } else if pin == 24 {
            Some(Button::Y)
        } else {
            None
        }
    }

    /// Whether the debounce window is over when `elapsed_nanos` have passed
    /// since the last press that counted.
    pub fn debounced(elapsed_nanos: u128) -> (over: bool)
        ensures
            over == (elapsed_nanos > DEBOUNCE_NANOS),
    {
        elapsed_nanos > DEBOUNCE_NANOS
    }

    /// What an edge on `pin` means when `elapsed_nanos` have passed since the
    /// last press that counted: a press of the button on that pin once the
    /// debounce window is over, and nothing before.
    pub fn pressed(elapsed_nanos: u128, pin: u8) -> (press: Option<Button>)
        ensures
            press is Some <==> elapsed_nanos > DEBOUNCE_NANOS && exists|b: Button|
                b.wired_pin() == pin,
            press matches Some(b) ==> b.wired_pin() == pin,
    {
        if Button::debounced(elapsed_nanos) {
            let button = Button::from_pin(pin);
            proof {
                if let Some(b) = button {
                    assert(b.wired_pin() == pin);
                }
            }
            button
        } else {
            None
        }
    }
}

} // verus!
