//! Places drawn at random on a ring around a centre.

use vstd::prelude::*;
use crate::geometry::Point3;
use crate::random::draw_between;

verus! {

/// Angles are counted in ten-thousandths of a radian and run over
/// `0..FULL_TURN`.
pub const FULL_TURN: u32 = 62_834;

/// A place on a ring: the point at `radius` sub-units from `centre` along the
/// x axis, turned about the vertical through `centre` by `angle`.
#[derive(Clone, Copy, Debug, PartialEq, Eq, Structural)]
pub struct Placement {
    pub centre: Point3,
    pub radius: u32,
    pub angle: u32,
}

/// The place lies around `centre`, its radius in `low..high`, its angle
/// within the full turn.
pub open spec fn placed_on_ring(place: Placement, centre: Point3, low: u32, high: u32) -> bool {
    &&& place.centre == centre
    &&& low <= place.radius < high
    &&& place.angle < FULL_TURN
}

/// Draws `count` places around `centre`, the radius of each from
/// `low..high` and its angle from the full turn.
pub fn scatter(centre: Point3, count: usize, low: u32, high: u32) -> (places: Vec<Placement>)
    requires
        low < high,
    ensures
        places@.len() == count,
        forall|i: int| 0 <= i < count ==> placed_on_ring(#[trigger] places@[i], centre, low, high),
{
    let mut rng = rand::thread_rng();
    let mut places: Vec<Placement> = Vec::new();
    let mut i: usize = 0;
    while i < count
        invariant
            i <= count,
            low < high,
            places@.len() == i,
            forall|j: int| 0 <= j < i ==> placed_on_ring(#[trigger] places@[j], centre, low, high),
        decreases count - i,
    {
        let radius = draw_between(&mut rng, low, high);
        let angle = draw_between(&mut rng, 0, FULL_TURN);
        places.push(Placement { centre, radius, angle });
        i = i + 1;
    }
    places
}

} // verus!
