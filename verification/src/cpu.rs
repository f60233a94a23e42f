//! The quarters of a display, one for each of four processors: which pixels
//! show the load of which.

use crate::pimoroni::Dimensions;
use vstd::prelude::*;

verus! {

/// Pixel identifiers count sixteen to a row.
pub const STRIDE: usize = 16;

/// The width of a range, which is empty where it ends before it starts.
pub open spec fn span(start: int, end: int) -> int {
    if start <= end {
        end - start
    } else {
        0
    }
}

/// The identifiers of the pixels of a rectangle, column by column: columns
/// from `x_start` up to `x_end`, and in each column rows from `y_start` up to
/// `y_end`, the ends not included.
pub open spec fn rect(x_start: int, x_end: int, y_start: int, y_end: int) -> Seq<usize> {
    Seq::new(
        (span(x_start, x_end) * span(y_start, y_end)) as nat,
        |k: int|
            ((y_start + k % span(y_start, y_end)) * STRIDE + x_start + k / span(y_start, y_end)) as usize,
    )
}

/// The identifiers of the pixels of a rectangle, column by column.
pub fn rect_ids(x_start: usize, x_end: usize, y_start: usize, y_end: usize) -> (ids: Vec<usize>)
    requires
        y_end * STRIDE + x_end <= usize::MAX,
    ensures
        ids@ == rect(x_start as int, x_end as int, y_start as int, y_end as int),
{
    let ghost rows = span(y_start as int, y_end as int);
    let mut res: Vec<usize> = Vec::new();
    let mut x = x_start;
    assert((x - x_start) * rows == 0) by (nonlinear_arith)
        requires
            x == x_start,
    ;
    while x < x_end
        invariant
            y_end * STRIDE + x_end <= usize::MAX,
            rows == span(y_start as int, y_end as int),
            x_start <= x,
            x <= x_end || x == x_start,
            res@.len() == (x - x_start) * rows,
            forall|k: int|
                0 <= k < res@.len() ==> res@[k] == (y_start + k % rows) * STRIDE + x_start + k / rows,
        decreases x_end - x,
    {
        let mut y = y_start;
        while y < y_end
            invariant
                x_start <= x < x_end,
                y_end * STRIDE + x_end <= usize::MAX,
                rows == span(y_start as int, y_end as int),
                y_start <= y,
                y <= y_end || y == y_start,
                res@.len() == (x - x_start) * rows + (y - y_start),
                forall|k: int|
                    0 <= k < res@.len() ==> res@[k] == (y_start + k % rows) * STRIDE + x_start + k
                        / rows,
            decreases y_end - y,
        {
            proof {
                vstd::arithmetic::div_mod::lemma_fundamental_div_mod_converse(
                    res@.len() as int,
                    rows,
                    x - x_start,
                    y - y_start,
                );
                assert(y * STRIDE <= y_end * STRIDE) by (nonlinear_arith)
                    requires
                        y <= y_end,
                ;
            }
            res.push(y * 16 + x);
            y += 1;
        }
        proof {
            assert((x - x_start) * rows + rows == (x + 1 - x_start) * rows) by (nonlinear_arith);
        }
        x += 1;
    }
    proof {
        assert(res@.len() == span(x_start as int, x_end as int) * rows) by {
            if x_start > x_end {
                assert(span(x_start as int, x_end as int) * rows == 0) by (nonlinear_arith)
                    requires
                        span(x_start as int, x_end as int) == 0,
                ;
            }
        }
        assert(res@ =~= rect(x_start as int, x_end as int, y_start as int, y_end as int));
    }
    res
}

/// The quarters of a display with their pixels' identifiers: left and right
/// of the upper half, then left and right of the lower half. The left
/// quarters and the upper quarters get the smaller part of an odd size.
pub fn quarters(dimensions: &Dimensions) -> (parts: Vec<Vec<usize>>)
    requires
        dimensions.height * STRIDE + dimensions.width <= usize::MAX,
    ensures
        parts@.len() == 4,
        parts@[0]@ == rect(0, (dimensions.width / 2) as int, 0, (dimensions.height / 2) as int),
        parts@[1]@ == rect(
            (dimensions.width / 2) as int,
            dimensions.width as int,
            0,
            ((dimensions.height / 2) as int) as int,
        ),
        parts@[2]@ == rect(
            0,
            (dimensions.width / 2) as int,
            ((dimensions.height / 2) as int) as int,
            dimensions.height as int,
        ),
        parts@[3]@ == rect(
            (dimensions.width / 2) as int,
            dimensions.width as int,
            ((dimensions.height / 2) as int) as int,
            dimensions.height as int,
        ),
{
    let half_width = dimensions.width / 2;
    let half_height = dimensions.height / 2;
    proof {
        assert(half_height * STRIDE <= dimensions.height * STRIDE) by (nonlinear_arith)
            requires
                half_height <= dimensions.height,
        ;
    }
    let mut parts: Vec<Vec<usize>> = Vec::new();
    parts.push(rect_ids(0, half_width, 0, half_height));
    parts.push(rect_ids(half_width, dimensions.width, 0, half_height));
    parts.push(rect_ids(0, half_width, half_height, dimensions.height));
    parts.push(rect_ids(half_width, dimensions.width, half_height, dimensions.height));
    parts
}

} // verus!
