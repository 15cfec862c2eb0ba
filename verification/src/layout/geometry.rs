//! Boxes on the character grid, and cutting a box down to a region.

use vstd::prelude::*;

verus! {

/// The largest coordinate of the grid. A length or an offset that a directive asks for
/// counts as this where it is larger.
pub const GRID_MAX: u16 = 0xFFFF;

/// A box on the grid, in cells: `x` grows to the right and `y` downward.
#[derive(Clone, Copy, Debug, PartialEq, Eq)]
pub struct Rect {
    pub x: u16,
    pub y: u16,
    pub width: u16,
    pub height: u16,
}

/// A box that was asked for and need not fit anywhere: it may begin before the grid, reach
/// beyond it, or have a negative size.
pub struct Frame {
    pub x: int,
    pub y: int,
    pub width: int,
    pub height: int,
}

/// A directive's number as a length on the grid.
pub open spec fn sat(n: usize) -> int {
    if n > GRID_MAX {
        GRID_MAX as int
    } else {
        n as int
    }
}

/// `v`, moved into `lo ..= hi` where it lies outside.
pub open spec fn clamp(v: int, lo: int, hi: int) -> int {
    if v < lo {
        lo
    } else if v > hi {
        hi
    } else {
        v
    }
}

impl Rect {
    /// The first column right of the box.
    pub open spec fn right(self) -> int {
        self.x + self.width
    }

    /// The first row below the box.
    pub open spec fn bottom(self) -> int {
        self.y + self.height
    }

    /// Whether the whole box lies on the grid.
    pub open spec fn on_grid(self) -> bool {
        self.right() <= GRID_MAX && self.bottom() <= GRID_MAX
    }

    /// Whether the box lies inside `outer`, edges included.
    pub open spec fn within(self, outer: Rect) -> bool {
        &&& outer.x <= self.x
        &&& self.right() <= outer.right()
        &&& outer.y <= self.y
        &&& self.bottom() <= outer.bottom()
    }

    /// The box as a frame.
    pub open spec fn frame(self) -> Frame {
        Frame { x: self.x as int, y: self.y as int, width: self.width as int, height: self.height as int }
    }
}

/// The whole grid.
pub open spec fn grid() -> Rect {
    Rect { x: 0, y: 0, width: GRID_MAX, height: GRID_MAX }
}

/// The part of `frame` that lies in `region`. Where nothing of it does, the result is an
/// empty box on the edge of `region` that is nearest to the frame. A negative size counts
/// as zero.
pub open spec fn clip(frame: Frame, region: Rect) -> Rect {
    let left = clamp(frame.x, region.x as int, region.right());
    let right = clamp(frame.x + clamp(frame.width, 0, GRID_MAX as int), left, region.right());
    let top = clamp(frame.y, region.y as int, region.bottom());
    let bottom = clamp(frame.y + clamp(frame.height, 0, GRID_MAX as int), top, region.bottom());
    Rect {
        x: left as u16,
        y: top as u16,
        width: (right - left) as u16,
        height: (bottom - top) as u16,
    }
}

/// What is cut to a region on the grid lies in that region, and so on the grid.
pub proof fn lemma_clip_within(frame: Frame, region: Rect)
    requires
        region.on_grid(),
    ensures
        clip(frame, region).within(region),
        clip(frame, region).on_grid(),
{
}

/// Along one axis, every frame that begins at or beyond the end of the region is cut to the
/// same empty box.
pub proof fn lemma_clip_beyond(a: Frame, b: Frame, region: Rect)
    requires
        region.on_grid(),
        a.x >= region.right() && b.x >= region.right() || a.x == b.x && a.width == b.width,
        a.y >= region.bottom() && b.y >= region.bottom() || a.y == b.y && a.height == b.height,
    ensures
        clip(a, region) == clip(b, region),
{
}

/// Cuts the box at `(x, y)` of size `width` by `height` down to `region`.
pub(crate) fn clip_to(x: i64, y: i64, width: i64, height: i64, region: Rect) -> (r: Rect)
    requires
        region.on_grid(),
        -0x1_0000_0000 <= x <= 0x1_0000_0000,
        -0x1_0000_0000 <= y <= 0x1_0000_0000,
        -0x1_0000_0000 <= width <= 0x1_0000_0000,
        -0x1_0000_0000 <= height <= 0x1_0000_0000,
    ensures
        r == clip(Frame { x: x as int, y: y as int, width: width as int, height: height as int }, region),
{
    let (left, w) = clip_axis(x, width, region.x, region.width);
    let (top, h) = clip_axis(y, height, region.y, region.height);
    Rect { x: left, y: top, width: w, height: h }
}

/// One axis of `clip_to`: the start and the length of what is left of `start .. start + length`
/// in `from .. from + room`.
fn clip_axis(start: i64, length: i64, from: u16, room: u16) -> (r: (u16, u16))
    requires
        from + room <= GRID_MAX,
        -0x1_0000_0000 <= start <= 0x1_0000_0000,
        -0x1_0000_0000 <= length <= 0x1_0000_0000,
    ensures
        r.0 == clamp(start as int, from as int, from + room),
        r.0 + r.1 == clamp(
            start + clamp(length as int, 0, GRID_MAX as int),
            r.0 as int,
            from + room,
        ),
{
    let lo: i64 = from as i64;
    let hi: i64 = lo + room as i64;
    let first: i64 = if start < lo {
        lo
    } else if start > hi {
        hi
    } else {
        start
    };
    let span: i64 = if length < 0 {
        0
    } else if length > GRID_MAX as i64 {
        GRID_MAX as i64
    } else {
        length
    };
    let end: i64 = start + span;
    let last: i64 = if end < first {
        first
    } else if end > hi {
        hi
    } else {
        end
    };
    (first as u16, (last - first) as u16)
}

} // verus!
