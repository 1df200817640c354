use vstd::prelude::*;
use crate::geo::point::Point;

verus! {

/// The trait that any struct must implement to be inserted as a body into a
/// [`QuadNode`](crate::quad::QuadNode).
///
/// What the tree reads of a body is gathered in `as_body`; every accessor
/// reports, and every setter changes, one field of it. What else there is to
/// a body is gathered in `rest`, which no setter changes.
pub trait Newtonian {
    /// What a body is made of besides its identity, mass, position and
    /// velocity.
    type Rest;

    /// The identity, mass, position and velocity of the body.
    spec fn as_body(&self) -> Body;

    /// Everything else that the body is made of.
    spec fn rest(&self) -> Self::Rest;

    fn id(&self) -> (id: u128)
        ensures
            id == self.as_body().id,
    ;

    fn mass(&self) -> (mass: u32)
        ensures
            mass == self.as_body().mass,
    ;

    fn position(&self) -> (position: Point)
        ensures
            position == self.as_body().center,
    ;

    fn velocity(&self) -> (velocity: Point)
        ensures
            velocity == self.as_body().velocity,
    ;

    fn set_position(&mut self, new_position: Point)
        ensures
            final(self).as_body() == (Body { center: new_position, ..old(self).as_body() }),
            final(self).rest() == old(self).rest(),
    ;

    fn set_velocity(&mut self, new_velocity: Point)
        ensures
            final(self).as_body() == (Body { velocity: new_velocity, ..old(self).as_body() }),
            final(self).rest() == old(self).rest(),
    ;
}

/// An example implementation of [`Newtonian`].
#[derive(Copy, Clone, Debug, PartialEq, Eq, Structural)]
pub struct Body {
    pub center: Point,
    pub id: u128,
    pub mass: u32,
    pub velocity: Point,
}

impl Body {
    pub fn new(id: u128, center: Point, mass: u32) -> (body: Self)
        ensures
            body == (Body { center, id, mass, velocity: Point { x: 0, y: 0 } }),
    {
        Self { center, id, mass, velocity: Point::new(0, 0) }
    }
}

impl Newtonian for Body {
    type Rest = ();

    open spec fn as_body(&self) -> Body {
        *self
    }

    open spec fn rest(&self) -> () {
        ()
    }

    fn id(&self) -> (id: u128) {
        self.id
    }

    fn mass(&self) -> (mass: u32) {
        self.mass
    }

    fn position(&self) -> (position: Point) {
        self.center
    }

    fn velocity(&self) -> (velocity: Point) {
        self.velocity
    }

    fn set_position(&mut self, new_position: Point) {
        self.center = new_position;
    }

    fn set_velocity(&mut self, new_velocity: Point) {
        self.velocity = new_velocity;
    }
}

} // verus!
