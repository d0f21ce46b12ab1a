//! Screen geometry: node centers and connector path strings.
//!
//! Coordinates live in a space private to the engine; the spacing
//! constants only have to be internally consistent, so that adjacent rows
//! and lanes never overlap. Connectors are encoded as SVG-style path
//! commands: a straight line between same-lane centers, and a quadratic
//! curve whose control point is biased two fifths of the way towards the
//! parent in both axes for lane changes.

use vstd::prelude::*;

use crate::decimal::dec_digits;
use crate::decimal::u64_to_dec;

verus! {

/// Horizontal distance between the centers of adjacent lanes.
pub const LANE_WIDTH: u64 = 200;

/// Vertical distance between the centers of adjacent rows.
pub const ROW_HEIGHT: u64 = 320;

/// Radius of the circle drawn on each node; less than half of either
/// spacing constant, so circles of adjacent nodes never touch.
pub const NODE_RADIUS: u64 = 65;

/// Center x of a lane.
pub open spec fn center_x(lane: int) -> int {
    lane * LANE_WIDTH + LANE_WIDTH / 2
}

/// Center y of a row.
pub open spec fn center_y(row: int) -> int {
    row * ROW_HEIGHT + ROW_HEIGHT / 2
}

/// The point two fifths of the way from `a` towards `b`. Every center
/// coordinate is a multiple of five, so the step is exact.
pub open spec fn two_fifths_toward(a: int, b: int) -> int {
    if b >= a {
        a + (b - a) / 5 * 2
    } else {
        a - (a - b) / 5 * 2
    }
}

/// The straight connector between two same-lane centers.
pub open spec fn line_path(x1: int, y1: int, x2: int, y2: int) -> Seq<char> {
    "M "@ + dec_digits(x1 as nat) + " "@ + dec_digits(y1 as nat) + " L "@ + dec_digits(x2 as nat)
        + " "@ + dec_digits(y2 as nat)
}

/// The curved connector between centers on different lanes: a quadratic
/// curve through the given control point.
pub open spec fn curve_path(x1: int, y1: int, cx: int, cy: int, x2: int, y2: int) -> Seq<char> {
    "M "@ + dec_digits(x1 as nat) + " "@ + dec_digits(y1 as nat) + " Q "@ + dec_digits(cx as nat)
        + " "@ + dec_digits(cy as nat) + ", "@ + dec_digits(x2 as nat) + " "@ + dec_digits(
        y2 as nat,
    )
}

/// The geometry of the connector from the commit at row `i`, lane `li`, to
/// its parent at row `j`, lane `lj`.
pub open spec fn connector_path(i: int, li: int, j: int, lj: int) -> Seq<char> {
    let x1 = center_x(li);
    let y1 = center_y(i);
    let x2 = center_x(lj);
    let y2 = center_y(j);
    if li == lj {
        line_path(x1, y1, x2, y2)
    } else {
        curve_path(
            x1,
            y1,
            two_fifths_toward(x1, x2),
            two_fifths_toward(y1, y2),
            x2,
            y2,
        )
    }
}

/// Computes the point two fifths of the way from `a` towards `b`.
fn step_two_fifths(a: u64, b: u64) -> (r: u64)
    ensures
        r as int == two_fifths_toward(a as int, b as int),
{
    if b >= a {
        let d = b - a;
        assert(d / 5 * 2 <= d);
        a + d / 5 * 2
    } else {
        let d = a - b;
        assert(d / 5 * 2 <= d);
        a - d / 5 * 2
    }
}

/// Builds the path string of the connector between the centers of row
/// `i`, lane `li` and row `j`, lane `lj`.
pub fn build_connector_path(i: u64, li: u64, j: u64, lj: u64) -> (s: String)
    requires
        li * LANE_WIDTH + LANE_WIDTH / 2 <= u64::MAX,
        lj * LANE_WIDTH + LANE_WIDTH / 2 <= u64::MAX,
        i * ROW_HEIGHT + ROW_HEIGHT / 2 <= u64::MAX,
        j * ROW_HEIGHT + ROW_HEIGHT / 2 <= u64::MAX,
    ensures
        s@ == connector_path(i as int, li as int, j as int, lj as int),
{
    let x1 = li * LANE_WIDTH + LANE_WIDTH / 2;
    let y1 = i * ROW_HEIGHT + ROW_HEIGHT / 2;
    let x2 = lj * LANE_WIDTH + LANE_WIDTH / 2;
    let y2 = j * ROW_HEIGHT + ROW_HEIGHT / 2;
    if li == lj {
        let mut s = "M ".to_owned();
        s.append(u64_to_dec(x1).as_str());
        s.append(" ");
        s.append(u64_to_dec(y1).as_str());
        s.append(" L ");
        s.append(u64_to_dec(x2).as_str());
        s.append(" ");
        s.append(u64_to_dec(y2).as_str());
        proof {
            assert(s@ =~= line_path(x1 as int, y1 as int, x2 as int, y2 as int));
        }
        s
    } else {
        let cx = step_two_fifths(x1, x2);
        let cy = step_two_fifths(y1, y2);
        let mut s = "M ".to_owned();
        s.append(u64_to_dec(x1).as_str());
        s.append(" ");
        s.append(u64_to_dec(y1).as_str());
        s.append(" Q ");
        s.append(u64_to_dec(cx).as_str());
        s.append(" ");
        s.append(u64_to_dec(cy).as_str());
        s.append(", ");
        s.append(u64_to_dec(x2).as_str());
        s.append(" ");
        s.append(u64_to_dec(y2).as_str());
        proof {
            assert(s@ =~= curve_path(
                x1 as int,
                y1 as int,
                cx as int,
                cy as int,
                x2 as int,
                y2 as int,
            ));
        }
        s
    }
}

} // verus!
