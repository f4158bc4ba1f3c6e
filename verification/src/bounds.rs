//! Rectangles: where a widget is, and the rule that keeps a dragged widget
//! inside what holds it.

use vstd::prelude::*;

verus! {

/// A rectangle given by its corner, its size and the layer it is drawn in.
/// It covers the points from its corner up to, but not including, the
/// corner plus the size.
#[derive(Clone, Copy, Debug, PartialEq, Eq, Structural, Hash)]
pub struct WorldBounds {
    pub x: i32,
    pub y: i32,
    pub width: i32,
    pub height: i32,
    pub layer: i32,
}

impl WorldBounds {
    /// Whether the point lies in the rectangle.
    pub open spec fn contains_point(self, px: int, py: int) -> bool {
        &&& self.x <= px < self.x + self.width
        &&& self.y <= py < self.y + self.height
    }

    /// Whether the rectangle, moved by the given amounts, has no edge outside
    /// `container` and a corner that is still a pair of `i32`.
    pub open spec fn accepts_move(self, container: WorldBounds, dx: int, dy: int) -> bool {
        &&& container.x <= self.x + dx
        &&& container.y <= self.y + dy
        &&& self.x + dx + self.width <= container.x + container.width
        &&& self.y + dy + self.height <= container.y + container.height
        &&& self.x + dx <= i32::MAX
        &&& self.y + dy <= i32::MAX
    }

    /// The rectangle with its corner moved by the given amounts.
    pub open spec fn moved_by(self, dx: int, dy: int) -> WorldBounds {
        WorldBounds { x: (self.x + dx) as i32, y: (self.y + dy) as i32, ..self }
    }

    /// The rectangle of a viewport of the given size, with its corner at the
    /// origin.
    pub open spec fn viewport(size: [i32; 2]) -> WorldBounds {
        WorldBounds { x: 0, y: 0, width: size[0], height: size[1], layer: 0 }
    }

    pub fn new(x: i32, y: i32, width: i32, height: i32, layer: i32) -> (bounds: WorldBounds)
        ensures
            bounds == (WorldBounds { x, y, width, height, layer }),
    {
        WorldBounds { x, y, width, height, layer }
    }

    /// The rectangle of a viewport of the given size.
    pub fn of_viewport(size: [i32; 2]) -> (bounds: WorldBounds)
        ensures
            bounds == WorldBounds::viewport(size),
    {
        WorldBounds { x: 0, y: 0, width: size[0], height: size[1], layer: 0 }
    }

    /// Whether the point lies in the rectangle.
    pub fn check_mouse_bounds(&self, mouse_pos: [i32; 2]) -> (inside: bool)
        ensures
            inside == self.contains_point(mouse_pos[0] as int, mouse_pos[1] as int),
    {
        let px: i64 = mouse_pos[0] as i64;
        let py: i64 = mouse_pos[1] as i64;
        let x: i64 = self.x as i64;
        let y: i64 = self.y as i64;
        x <= px && px < x + self.width as i64 && y <= py && py < y + self.height as i64
    }

    /// Whether the rectangle, moved by the given amounts, has no edge outside
    /// `container`.
    pub fn can_move(&self, container: &WorldBounds, dx: i64, dy: i64) -> (accepted: bool)
        requires
            -0x1_0000_0000 <= dx <= 0x1_0000_0000,
            -0x1_0000_0000 <= dy <= 0x1_0000_0000,
        ensures
            accepted == self.accepts_move(*container, dx as int, dy as int),
    {
        let nx: i64 = self.x as i64 + dx;
        let ny: i64 = self.y as i64 + dy;
        let cx: i64 = container.x as i64;
        let cy: i64 = container.y as i64;
        cx <= nx && cy <= ny && nx + self.width as i64 <= cx + container.width as i64 && ny
            + self.height as i64 <= cy + container.height as i64 && nx <= i32::MAX as i64 && ny
            <= i32::MAX as i64
    }

    /// Moves the rectangle by the given amounts if, moved, it has no edge
    /// outside `container`; otherwise leaves it where it is. Says whether it
    /// moved.
    pub fn try_move(&mut self, container: &WorldBounds, dx: i64, dy: i64) -> (moved: bool)
        requires
            -0x1_0000_0000 <= dx <= 0x1_0000_0000,
            -0x1_0000_0000 <= dy <= 0x1_0000_0000,
        ensures
            moved == old(self).accepts_move(*container, dx as int, dy as int),
            moved ==> *final(self) == old(self).moved_by(dx as int, dy as int),
            !moved ==> *final(self) == *old(self),
    {
        if self.can_move(container, dx, dy) {
            self.x = (self.x as i64 + dx) as i32;
            self.y = (self.y as i64 + dy) as i32;
            true
        } else {
            false
        }
    }
}

impl Default for WorldBounds {
    fn default() -> (bounds: WorldBounds)
        ensures
            bounds == (WorldBounds { x: 0, y: 0, width: 0, height: 0, layer: 0 }),
    {
        WorldBounds { x: 0, y: 0, width: 0, height: 0, layer: 0 }
    }
}

/// Where a widget is now.
#[derive(Clone, Copy, Debug, PartialEq, Eq, Structural, Hash)]
pub struct WidgetBounds(pub WorldBounds);

impl WidgetBounds {
    pub fn get(&self) -> (bounds: &WorldBounds)
        ensures
            *bounds == self.0,
    {
        &self.0
    }

    pub fn get_mut(&mut self) -> (bounds: &mut WorldBounds)
        ensures
            *bounds == old(self).0,
            final(self).0 == *final(bounds),
    {
        &mut self.0
    }
}

impl Default for WidgetBounds {
    fn default() -> (bounds: WidgetBounds)
        ensures
            bounds.0 == (WorldBounds { x: 0, y: 0, width: 0, height: 0, layer: 0 }),
    {
        WidgetBounds(WorldBounds { x: 0, y: 0, width: 0, height: 0, layer: 0 })
    }
}

/// Where a widget was before anything clipped it, so that it can be put back.
#[derive(Clone, Copy, Debug, PartialEq, Eq, Structural, Hash)]
pub struct OriginalBounds(pub WorldBounds);

impl OriginalBounds {
    pub fn get(&self) -> (bounds: &WorldBounds)
        ensures
            *bounds == self.0,
    {
        &self.0
    }

    pub fn get_mut(&mut self) -> (bounds: &mut WorldBounds)
        ensures
            *bounds == old(self).0,
            final(self).0 == *final(bounds),
    {
        &mut self.0
    }
}

impl Default for OriginalBounds {
    fn default() -> (bounds: OriginalBounds)
        ensures
            bounds.0 == (WorldBounds { x: 0, y: 0, width: 0, height: 0, layer: 0 }),
    {
        OriginalBounds(WorldBounds { x: 0, y: 0, width: 0, height: 0, layer: 0 })
    }
}

} // verus!
