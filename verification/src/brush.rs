//! The brush's radius and how the scroll wheel changes it.

use vstd::prelude::*;

verus! {

/// Smallest brush radius: one pixel.
pub const MIN_RADIUS: i32 = 256;

/// Largest brush radius.
pub const MAX_RADIUS: i32 = 1_073_741_824;

/// Units that one notch of the scroll wheel counts for.
pub const NOTCH: i32 = 256;

/// Units by which the radius changes for each unit of scrolling.
pub const SCROLL_MULTIPLIER: i32 = 4;

/// The radius that scrolling by `amount` turns `radius` into: `amount` times
/// [`SCROLL_MULTIPLIER`] is added, and the sum is brought back into the range
/// from [`MIN_RADIUS`] to [`MAX_RADIUS`].
pub open spec fn scrolled(radius: int, amount: int) -> int {
    let wanted = radius + SCROLL_MULTIPLIER * amount;
    if wanted < MIN_RADIUS {
        MIN_RADIUS as int
    } else if wanted > MAX_RADIUS {
        MAX_RADIUS as int
    } else {
        wanted
    }
}

/// The radius after scrolling by each of `amounts` in turn.
pub open spec fn scrolled_by_all(radius: int, amounts: Seq<int>) -> int
    decreases amounts.len(),
{
    if amounts.len() == 0 {
        radius
    } else {
        scrolled(scrolled_by_all(radius, amounts.drop_last()), amounts.last())
    }
}

/// However often and however far the wheel is turned, the radius never drops
/// below one pixel, nor does it leave the range of radii in any other way.
pub proof fn lemma_scrolling_keeps_radius_in_range(radius: int, amounts: Seq<int>)
    requires
        Radius::representable(radius),
    ensures
        Radius::representable(scrolled_by_all(radius, amounts)),
        MIN_RADIUS <= scrolled_by_all(radius, amounts),
    decreases amounts.len(),
{
    if amounts.len() > 0 {
        lemma_scrolling_keeps_radius_in_range(radius, amounts.drop_last());
    }
}

/// A brush radius: at least one pixel, at most [`MAX_RADIUS`].
#[derive(Clone, Copy, Debug, PartialEq, Eq, Structural)]
pub struct Radius {
    pub(crate) units: i32,
}

impl View for Radius {
    type V = int;

    open(crate) spec fn view(&self) -> int {
        self.units as int
    }
}

impl Radius {
    #[verifier::type_invariant]
    pub open(crate) spec fn within_limits(self) -> bool {
        Self::representable(self.units as int)
    }

    /// Whether a number of units is a radius that a brush can have.
    pub open spec fn representable(units: int) -> bool {
        MIN_RADIUS <= units <= MAX_RADIUS
    }

    /// The radius of `units` sub-pixel units, or `None` where that is less
    /// than one pixel or more than [`MAX_RADIUS`].
    pub fn new(units: i32) -> (result: Option<Radius>)
        ensures
            result.is_some() <==> Self::representable(units as int),
            result matches Some(r) ==> r@ == units,
    {
        if MIN_RADIUS <= units && units <= MAX_RADIUS {
            Some(Radius { units })
        } else {
            None
        }
    }

    /// The radius in sub-pixel units.
    pub fn units(self) -> (result: i32)
        ensures
            result == self@,
            Self::representable(result as int),
    {
        proof {
            use_type_invariant(&self);
        }
        self.units
    }

    /// The radius after the wheel was turned by `amount`.
    pub fn scroll(self, amount: i32) -> (result: Radius)
        ensures
            result@ == scrolled(self@, amount as int),
    {
        proof {
            use_type_invariant(&self);
        }
        assert(SCROLL_MULTIPLIER * amount == 4 * amount) by (nonlinear_arith)
            requires
                SCROLL_MULTIPLIER == 4,
        ;
        assert(SCROLL_MULTIPLIER as i64 * amount as i64 == 4 * amount) by (nonlinear_arith)
            requires
                SCROLL_MULTIPLIER == 4,
        ;
        let wanted: i64 = self.units as i64 + SCROLL_MULTIPLIER as i64 * amount as i64;
        if wanted < MIN_RADIUS as i64 {
            Radius { units: MIN_RADIUS }
        } else if wanted > MAX_RADIUS as i64 {
            Radius { units: MAX_RADIUS }
        } else {
            Radius { units: wanted as i32 }
        }
    }
}

/// A turn of the scroll wheel.
#[derive(Clone, Copy, Debug, PartialEq, Eq, Structural)]
pub enum Scroll {
    /// One notch away from the user.
    Up,
    /// One notch towards the user.
    Down,
    /// A smooth turn by the given amount, of which [`NOTCH`] make one notch.
    Smooth(i32),
    /// Any other turn; it leaves the radius alone.
    Other,
}

impl Scroll {
    /// The amount by which the turn scrolls.
    pub open spec fn amount(self) -> int {
        match self {
            Scroll::Up => NOTCH as int,
            Scroll::Down => -NOTCH,
            Scroll::Smooth(amount) => amount as int,
            Scroll::Other => 0,
        }
    }

    /// The amount by which the turn scrolls.
    pub fn steps(self) -> (result: i32)
        ensures
            result == self.amount(),
    {
        match self {
            Scroll::Up => NOTCH,
            Scroll::Down => -NOTCH,
            Scroll::Smooth(amount) => amount,
            Scroll::Other => 0,
        }
    }
}

} // verus!
