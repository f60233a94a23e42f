//! Drawing on any board through the display contract: what one pass of a
//! render loop decides, from the values the loop has read to the transfers
//! it has to perform.

use crate::pimoroni::wire;
use crate::pimoroni::Display;
use crate::pimoroni::Transfer;
use crate::RGB;
use vstd::prelude::*;

verus! {

/// The colour of memory in use.
pub fn green() -> (colour: RGB)
    ensures
        colour == (RGB { r: 0, g: 20, b: 0 }),
{
    RGB::new(0, 20, 0)
}

/// The colour of processor load.
pub fn red() -> (colour: RGB)
    ensures
        colour == (RGB { r: 70, g: 0, b: 0 }),
{
    RGB::new(70, 0, 0)
}

/// The colour of a pixel of the load display: green where memory use lights
/// it, with red added where processor load does.
pub open spec fn load_colour(ram: bool, cpu: bool) -> RGB {
    RGB {
        r: if cpu {
            70
        } else {
            0
        },
        g: if ram {
            20
        } else {
            0
        },
        b: 0,
    }
}

/// The colour of a pixel of the load display.
pub fn status_colour(ram: bool, cpu: bool) -> (colour: RGB)
    ensures
        colour == load_colour(ram, cpu),
{
    let mut rgb = if ram {
        green()
    } else {
        RGB::black()
    };
    if cpu {
        let load = red();
        rgb = RGB::new(rgb.r + load.r, rgb.g + load.g, rgb.b + load.b);
    }
    rgb
}

/// The colours of the load display, one for each pixel that both status
/// vectors speak of.
pub fn status_colours(ram_px: &Vec<bool>, cpu_px: &Vec<bool>) -> (colours: Vec<RGB>)
    ensures
        colours@.len() == if ram_px@.len() <= cpu_px@.len() {
            ram_px@.len()
        } else {
            cpu_px@.len()
        },
        forall|i: int|
            0 <= i < colours@.len() ==> #[trigger] colours@[i] == load_colour(ram_px@[i], cpu_px@[i]),
{
    let len = if ram_px.len() <= cpu_px.len() {
        ram_px.len()
    } else {
        cpu_px.len()
    };
    let mut colours: Vec<RGB> = Vec::new();
    for idx in 0..len
        invariant
            len <= ram_px@.len(),
            len <= cpu_px@.len(),
            colours@.len() == idx,
            forall|i: int|
                0 <= i < idx ==> #[trigger] colours@[i] == load_colour(ram_px@[i], cpu_px@[i]),
    {
        colours.push(status_colour(ram_px[idx], cpu_px[idx]));
    }
    colours
}

/// Gives the first pixels of the board the colours of `colours`, in flat
/// index order, and hands back the transfers that show the frame.
pub fn draw<D: Display>(display: &mut D, colours: &Vec<RGB>) -> (sent: Vec<Transfer>)
    requires
        old(display).wf(),
        colours@.len() <= old(display).dims().area(),
    ensures
        final(display).wf(),
        final(display).dims() == old(display).dims(),
        final(display).pixels() == colours@ + old(display).pixels().skip(colours@.len() as int),
        wire(sent@) == final(display).frame_transfers(),
{
    let len = colours.len();
    proof {
        display.frame_shape();
        assert(display.pixels() =~= colours@.take(0) + display.pixels().skip(0));
    }
    for idx in 0..len
        invariant
            len == colours@.len(),
            len <= old(display).dims().area(),
            display.wf(),
            display.dims() == old(display).dims(),
            display.pixels().len() == old(display).pixels().len(),
            old(display).pixels().len() == old(display).dims().area(),
            display.pixels() == colours@.take(idx as int) + old(display).pixels().skip(idx as int),
    {
        display.set_idx(idx, &colours[idx]);
        assert(display.pixels() =~= colours@.take(idx + 1) + old(display).pixels().skip(idx + 1));
    }
    assert(colours@.take(len as int) =~= colours@);
    display.flush()
}

/// One frame of the load display: a pixel is green where `ram_px` lights it,
/// with red added where `cpu_px` does.
pub fn draw_status<D: Display>(display: &mut D, ram_px: &Vec<bool>, cpu_px: &Vec<bool>) -> (sent:
    Vec<Transfer>)
    requires
        old(display).wf(),
        ram_px@.len() <= old(display).dims().area() || cpu_px@.len() <= old(display).dims().area(),
    ensures
        final(display).wf(),
        final(display).dims() == old(display).dims(),
        final(display).pixels().len() == old(display).pixels().len(),
        forall|i: int|
            0 <= i < final(display).pixels().len() ==> #[trigger] final(display).pixels()[i] == (
            if i < ram_px@.len() && i < cpu_px@.len() {
                load_colour(ram_px@[i], cpu_px@[i])
            } else {
                old(display).pixels()[i]
            }),
        wire(sent@) == final(display).frame_transfers(),
{
    proof {
        display.frame_shape();
    }
    let colours = status_colours(ram_px, cpu_px);
    draw(display, &colours)
}

/// Gives every pixel of the board the colour `colour`, column by column,
/// and hands back the transfers that show the frame.
pub fn fill<D: Display>(display: &mut D, colour: &RGB) -> (sent: Vec<Transfer>)
    requires
        old(display).wf(),
    ensures
        final(display).wf(),
        final(display).dims() == old(display).dims(),
        final(display).pixels() == Seq::new(
            old(display).dims().area() as nat,
            |i: int| *colour,
        ),
        wire(sent@) == final(display).frame_transfers(),
{
    let dimensions = *display.dimensions();
    proof {
        display.frame_shape();
    }
    for x in 0..dimensions.width
        invariant
            display.wf(),
            display.dims() == old(display).dims(),
            dimensions == display.dims(),
            forall|i: int, j: int|
                0 <= i < x && 0 <= j < dimensions.height ==> display.pixels()[#[trigger] D::index_of(
                    i,
                    j,
                )] == *colour,
    {
        for y in 0..dimensions.height
            invariant
                x < dimensions.width,
                display.wf(),
                display.dims() == old(display).dims(),
                dimensions == display.dims(),
                forall|i: int, j: int|
                    0 <= i < x && 0 <= j < dimensions.height ==> display.pixels()[#[trigger] D::index_of(
                        i,
                        j,
                    )] == *colour,
                forall|j: int|
                    0 <= j < y ==> display.pixels()[#[trigger] D::index_of(x as int, j)]
                        == *colour,
        {
            proof {
                display.frame_shape();
            }
            display.set_xy(x, y, colour);
            proof {
                display.frame_shape();
            }
        }
    }
    proof {
        display.frame_shape();
        assert forall|idx: int| 0 <= idx < display.pixels().len() implies display.pixels()[idx]
            == *colour by {
            let (i, j) = D::coordinates_of(idx);
            assert(display.pixels()[D::index_of(i, j)] == *colour);
        }
        assert(display.pixels() =~= Seq::new(old(display).dims().area() as nat, |i: int| *colour));
    }
    display.flush()
}

} // verus!
