use vstd::prelude::*;

verus! {

/// One of the four cardinal directions in which focus and windows move.
#[derive(Copy, Clone, Debug, PartialEq, Eq, Structural)]
pub enum Direction {
    Above,
    Below,
    Left,
    Right,
}

impl Direction {
    pub open spec fn opposite(self) -> Direction {
        match self {
            Direction::Above => Direction::Below,
            Direction::Below => Direction::Above,
            Direction::Left => Direction::Right,
            Direction::Right => Direction::Left,
        }
    }

    /// The direction that points the other way.
    pub fn reverse(self) -> (r: Direction)
        ensures
            r == self.opposite(),
    {
        match self {
            Direction::Above => Direction::Below,
            Direction::Below => Direction::Above,
            Direction::Left => Direction::Right,
            Direction::Right => Direction::Left,
        }
    }
}

/// A position in logical pixels.
#[derive(Copy, Clone, Debug, Default, PartialEq, Eq, Structural)]
pub struct Point {
    pub x: u32,
    pub y: u32,
}

impl Point {
    /// The square of the Euclidean distance between two points.
    pub open spec fn distance_squared_spec(self, other: Point) -> int {
        (other.x - self.x) * (other.x - self.x) + (other.y - self.y) * (other.y - self.y)
    }

    /// The square of the Euclidean distance between two points. Ordering
    /// points by it orders them by their distance.
    pub fn distance_squared(self, other: Point) -> (r: u128)
        ensures
            r == self.distance_squared_spec(other),
    {
        let dx: u128 = if other.x >= self.x {
            (other.x - self.x) as u128
        } else {
            (self.x - other.x) as u128
        };
        let dy: u128 = if other.y >= self.y {
            (other.y - self.y) as u128
        } else {
            (self.y - other.y) as u128
        };
        assert(dx * dx <= 0xffff_ffff * 0xffff_ffff) by (nonlinear_arith)
            requires
                dx <= 0xffff_ffff,
        ;
        assert(dy * dy <= 0xffff_ffff * 0xffff_ffff) by (nonlinear_arith)
            requires
                dy <= 0xffff_ffff,
        ;
        assert(dx * dx == (other.x - self.x) * (other.x - self.x)) by (nonlinear_arith)
            requires
                dx == other.x - self.x || dx == self.x - other.x,
        ;
        assert(dy * dy == (other.y - self.y) * (other.y - self.y)) by (nonlinear_arith)
            requires
                dy == other.y - self.y || dy == self.y - other.y,
        ;
        dx * dx + dy * dy
    }
}

/// The positioning and dimensions of a rectangular object.
#[derive(Copy, Clone, Debug, Default, PartialEq, Eq, Structural)]
pub struct Rect {
    pub x: u32,
    pub y: u32,
    pub width: u32,
    pub height: u32,
}

impl Rect {
    /// Both far edges of the rectangle are coordinates that fit in 32 bits.
    pub open spec fn valid(self) -> bool {
        self.x + self.width <= u32::MAX && self.y + self.height <= u32::MAX
    }

    pub open spec fn north_spec(self) -> Point {
        Point { x: (self.x + self.width / 2) as u32, y: self.y }
    }

    pub open spec fn south_spec(self) -> Point {
        Point { x: (self.x + self.width / 2) as u32, y: (self.y + self.height) as u32 }
    }

    pub open spec fn east_spec(self) -> Point {
        Point { x: (self.x + self.width) as u32, y: (self.y + self.height / 2) as u32 }
    }

    pub open spec fn west_spec(self) -> Point {
        Point { x: self.x, y: (self.y + self.height / 2) as u32 }
    }

    /// Whether `other` lies strictly on the `direction` side of this
    /// rectangle, judged by the origins of the two.
    pub open spec fn faces_spec(self, other: Rect, direction: Direction) -> bool {
        match direction {
            Direction::Above => self.y > other.y,
            Direction::Below => self.y < other.y,
            Direction::Left => self.x > other.x,
            Direction::Right => self.x < other.x,
        }
    }

    /// The horizontal position of the midpoint of the edge on the `direction` side.
    pub open spec fn anchor_x(self, direction: Direction) -> int {
        match direction {
            Direction::Above => self.x + self.width / 2,
            Direction::Below => self.x + self.width / 2,
            Direction::Left => self.x as int,
            Direction::Right => self.x + self.width,
        }
    }

    /// The vertical position of the midpoint of the edge on the `direction` side.
    pub open spec fn anchor_y(self, direction: Direction) -> int {
        match direction {
            Direction::Above => self.y as int,
            Direction::Below => self.y + self.height,
            Direction::Left => self.y + self.height / 2,
            Direction::Right => self.y + self.height / 2,
        }
    }

    /// The squared distance from this rectangle to `other` along `direction`:
    /// between the midpoint of this rectangle's edge on that side and the
    /// midpoint of the opposite edge of `other`.
    pub open spec fn distance_toward_spec(self, other: Rect, direction: Direction) -> int {
        (other.anchor_x(direction.opposite()) - self.anchor_x(direction)) * (other.anchor_x(
            direction.opposite(),
        ) - self.anchor_x(direction)) + (other.anchor_y(direction.opposite()) - self.anchor_y(
            direction,
        )) * (other.anchor_y(direction.opposite()) - self.anchor_y(direction))
    }

    pub fn new(x: u32, y: u32, width: u32, height: u32) -> (r: Rect)
        ensures
            r == (Rect { x, y, width, height }),
    {
        Rect { x, y, width, height }
    }

    /// The number of pixels covered.
    pub fn area(&self) -> (r: u64)
        ensures
            r == self.width * self.height,
    {
        assert(self.width * self.height <= 0xffff_ffff * 0xffff_ffff) by (nonlinear_arith)
            requires
                self.width <= 0xffff_ffff,
                self.height <= 0xffff_ffff,
        ;
        (self.width as u64) * (self.height as u64)
    }

    /// The horizontal position of the midpoint of the edge on the `direction` side.
    pub fn edge_x(&self, direction: Direction) -> (r: u64)
        ensures
            r == self.anchor_x(direction),
            r <= 0x1_ffff_fffe,
    {
        match direction {
            Direction::Above => self.x as u64 + (self.width / 2) as u64,
            Direction::Below => self.x as u64 + (self.width / 2) as u64,
            Direction::Left => self.x as u64,
            Direction::Right => self.x as u64 + self.width as u64,
        }
    }

    /// The vertical position of the midpoint of the edge on the `direction` side.
    pub fn edge_y(&self, direction: Direction) -> (r: u64)
        ensures
            r == self.anchor_y(direction),
            r <= 0x1_ffff_fffe,
    {
        match direction {
            Direction::Above => self.y as u64,
            Direction::Below => self.y as u64 + self.height as u64,
            Direction::Left => self.y as u64 + (self.height / 2) as u64,
            Direction::Right => self.y as u64 + (self.height / 2) as u64,
        }
    }

    /// Squared distance from the bottom edge of this rectangle to the top edge of `other`.
    pub fn distance_downward(&self, other: &Rect) -> (r: u128)
        ensures
            r == self.distance_toward_spec(*other, Direction::Below),
    {
        self.distance_toward(other, Direction::Below)
    }

    /// Squared distance from the right edge of this rectangle to the left edge of `other`.
    pub fn distance_eastward(&self, other: &Rect) -> (r: u128)
        ensures
            r == self.distance_toward_spec(*other, Direction::Right),
    {
        self.distance_toward(other, Direction::Right)
    }

    /// Squared distance from the top edge of this rectangle to the bottom edge of `other`.
    pub fn distance_upward(&self, other: &Rect) -> (r: u128)
        ensures
            r == self.distance_toward_spec(*other, Direction::Above),
    {
        self.distance_toward(other, Direction::Above)
    }

    /// Squared distance from the left edge of this rectangle to the right edge of `other`.
    pub fn distance_westward(&self, other: &Rect) -> (r: u128)
        ensures
            r == self.distance_toward_spec(*other, Direction::Left),
    {
        self.distance_toward(other, Direction::Left)
    }

    /// The squared distance to `other` along `direction`. Ordering rectangles by it orders
    /// them by their distance.
    pub fn distance_toward(&self, other: &Rect, direction: Direction) -> (r: u128)
        ensures
            r == self.distance_toward_spec(*other, direction),
    {
        let ax = self.edge_x(direction);
        let ay = self.edge_y(direction);
        let bx = other.edge_x(direction.reverse());
        let by = other.edge_y(direction.reverse());
        let dx: u128 = if bx >= ax {
            (bx - ax) as u128
        } else {
            (ax - bx) as u128
        };
        let dy: u128 = if by >= ay {
            (by - ay) as u128
        } else {
            (ay - by) as u128
        };
        assert(dx * dx <= 0x1_ffff_fffe * 0x1_ffff_fffe) by (nonlinear_arith)
            requires
                dx <= 0x1_ffff_fffe,
        ;
        assert(dy * dy <= 0x1_ffff_fffe * 0x1_ffff_fffe) by (nonlinear_arith)
            requires
                dy <= 0x1_ffff_fffe,
        ;
        assert(dx * dx == (bx - ax) * (bx - ax)) by (nonlinear_arith)
            requires
                dx == bx - ax || dx == ax - bx,
        ;
        assert(dy * dy == (by - ay) * (by - ay)) by (nonlinear_arith)
            requires
                dy == by - ay || dy == ay - by,
        ;
        dx * dx + dy * dy
    }

    /// Whether `other` starts below the top of this rectangle.
    pub fn is_below(&self, other: &Rect) -> (r: bool)
        ensures
            r == (self.y < other.y),
    {
        self.y < other.y
    }

    /// Whether `other` starts above the top of this rectangle.
    pub fn is_above(&self, other: &Rect) -> (r: bool)
        ensures
            r == (self.y > other.y),
    {
        self.y > other.y
    }

    /// Whether `other` starts left of the left edge of this rectangle.
    pub fn is_left(&self, other: &Rect) -> (r: bool)
        ensures
            r == (self.x > other.x),
    {
        self.x > other.x
    }

    /// Whether `other` starts right of the left edge of this rectangle.
    pub fn is_right(&self, other: &Rect) -> (r: bool)
        ensures
            r == (self.x < other.x),
    {
        self.x < other.x
    }

    /// Whether `other` lies strictly on the `direction` side of this rectangle.
    pub fn faces(&self, other: &Rect, direction: Direction) -> (r: bool)
        ensures
            r == self.faces_spec(*other, direction),
    {
        match direction {
            Direction::Above => self.is_above(other),
            Direction::Below => self.is_below(other),
            Direction::Left => self.is_left(other),
            Direction::Right => self.is_right(other),
        }
    }

    /// Midpoint of the right edge.
    pub fn east(&self) -> (p: Point)
        requires
            self.x + self.width <= u32::MAX,
            self.y + self.height / 2 <= u32::MAX,
        ensures
            p == self.east_spec(),
    {
        Point { x: self.x_end(), y: self.y_center() }
    }

    /// Midpoint of the top edge.
    pub fn north(&self) -> (p: Point)
        requires
            self.x + self.width / 2 <= u32::MAX,
        ensures
            p == self.north_spec(),
    {
        Point { x: self.x_center(), y: self.y }
    }

    /// Midpoint of the bottom edge.
    pub fn south(&self) -> (p: Point)
        requires
            self.x + self.width / 2 <= u32::MAX,
            self.y + self.height <= u32::MAX,
        ensures
            p == self.south_spec(),
    {
        Point { x: self.x_center(), y: self.y_end() }
    }

    /// Midpoint of the left edge.
    pub fn west(&self) -> (p: Point)
        requires
            self.y + self.height / 2 <= u32::MAX,
        ensures
            p == self.west_spec(),
    {
        Point { x: self.x, y: self.y_center() }
    }

    pub fn x_center(&self) -> (r: u32)
        requires
            self.x + self.width / 2 <= u32::MAX,
        ensures
            r == self.x + self.width / 2,
    {
        self.x + self.width / 2
    }

    pub fn x_end(&self) -> (r: u32)
        requires
            self.x + self.width <= u32::MAX,
        ensures
            r == self.x + self.width,
    {
        self.x + self.width
    }

    pub fn y_center(&self) -> (r: u32)
        requires
            self.y + self.height / 2 <= u32::MAX,
        ensures
            r == self.y + self.height / 2,
    {
        self.y + self.height / 2
    }

    pub fn y_end(&self) -> (r: u32)
        requires
            self.y + self.height <= u32::MAX,
        ensures
            r == self.y + self.height,
    {
        self.y + self.height
    }

    /// Whether both far edges fit in 32 bits.
    pub fn is_valid(&self) -> (r: bool)
        ensures
            r == self.valid(),
    {
        self.width <= u32::MAX - self.x && self.height <= u32::MAX - self.y
    }
}

} // verus!
