use vstd::prelude::*;

verus! {

/// Where a unit stands, in whole world units. The origin is the middle of the
/// play field.
#[derive(Clone, Copy, Debug, PartialEq, Eq, Structural)]
pub struct Position {
    pub x: i32,
    pub y: i32,
}

/// The square of a difference of two coordinates fits in 64 bits.
pub proof fn lemma_square_of_difference(d: int)
    by (nonlinear_arith)
    requires
        -0x1_0000_0000 < d < 0x1_0000_0000,
    ensures
        0 <= d * d < 0x1_0000_0000_0000_0000,
{
}

impl Position {
    /// The square of the Euclidean distance between two positions.
    pub open spec fn dist_sq(self, other: Position) -> int {
        (self.x - other.x) * (self.x - other.x) + (self.y - other.y) * (self.y - other.y)
    }

    /// Whether the Euclidean distance to `other` is strictly less than `range`.
    /// Both sides are lengths, so it is enough to compare their squares.
    pub open spec fn within(self, other: Position, range: u32) -> bool {
        self.dist_sq(other) < range * range
    }

    /// Whether the Euclidean distance to `other` is strictly more than `range`.
    pub open spec fn beyond(self, other: Position, range: u32) -> bool {
        self.dist_sq(other) > range * range
    }

    /// The middle of the play field.
    pub open spec fn spec_origin() -> Position {
        Position { x: 0, y: 0 }
    }

    #[verifier::when_used_as_spec(spec_origin)]
    pub fn origin() -> (origin: Position)
        ensures
            origin == (Position { x: 0, y: 0 }),
    {
        Position { x: 0, y: 0 }
    }

    /// The square of the distance to `other`, which never overflows: two
    /// coordinates differ by less than 2^32.
    pub fn distance_squared(&self, other: &Position) -> (squared: u128)
        ensures
            squared == self.dist_sq(*other),
            squared < 0x2_0000_0000_0000_0000,
    {
        let dx: i128 = self.x as i128 - other.x as i128;
        let dy: i128 = self.y as i128 - other.y as i128;
        proof {
            lemma_square_of_difference(dx as int);
            lemma_square_of_difference(dy as int);
        }
        (dx * dx + dy * dy) as u128
    }

    pub fn is_within(&self, other: &Position, range: u32) -> (within: bool)
        ensures
            within == self.within(*other, range),
    {
        let reach: u128 = range as u128;
        proof {
            lemma_square_of_difference(range as int);
        }
        self.distance_squared(other) < reach * reach
    }

    pub fn is_beyond(&self, other: &Position, range: u32) -> (beyond: bool)
        ensures
            beyond == self.beyond(*other, range),
    {
        let reach: u128 = range as u128;
        proof {
            lemma_square_of_difference(range as int);
        }
        self.distance_squared(other) > reach * reach
    }
}

} // verus!
