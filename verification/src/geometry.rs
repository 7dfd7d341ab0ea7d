//! Unit-tagged plane geometry.
//!
//! Coordinates live in one of two coordinate spaces — the overworld and the
//! screen — and the spaces are told apart at the type level by a marker unit,
//! so that a point in one space can never be passed where the other is meant.

use vstd::prelude::*;

verus! {

/// Marker for coordinates measured in overworld units.
#[derive(Debug, Copy, Clone, Eq, PartialEq, Ord, PartialOrd, Hash)]
pub struct Overworld;

/// Marker for coordinates measured in screen pixels.
#[derive(Debug, Copy, Clone, Eq, PartialEq, Ord, PartialOrd, Hash)]
pub struct Screen;

/// A point of the plane, tagged by the unit `Unit` of its coordinate space.
#[derive(Debug, Eq, PartialEq, Ord, PartialOrd, Hash)]
pub struct Point2<T, Unit> {
    pub x: T,
    pub y: T,
    pub _unit: core::marker::PhantomData<Unit>,
}

impl<T: Clone, Unit> Clone for Point2<T, Unit> {
    fn clone(&self) -> (r: Self)
        ensures
            vstd::pervasive::cloned(self.x, r.x),
            vstd::pervasive::cloned(self.y, r.y),
    {
        Point2 {
            x: self.x.clone(),
            y: self.y.clone(),
            _unit: core::marker::PhantomData,
        }
    }
}

impl<T: Copy, Unit> Copy for Point2<T, Unit> {

}

impl<T, Unit> Point2<T, Unit> {
    pub fn new(x: T, y: T) -> (p: Self)
        ensures
            p.x == x,
            p.y == y,
    {
        Point2 { x, y, _unit: core::marker::PhantomData }
    }
}

/// An axis-aligned box of the plane, given by its minimal and maximal corner.
#[derive(Debug, Eq, PartialEq, Hash)]
pub struct Box2<T, Unit> {
    pub min: Point2<T, Unit>,
    pub max: Point2<T, Unit>,
}

impl<T: Copy, Unit> Clone for Box2<T, Unit> {
    fn clone(&self) -> (r: Self)
        ensures
            r == *self,
    {
        Box2 { min: self.min, max: self.max }
    }
}

impl<T: Copy, Unit> Copy for Box2<T, Unit> {

}

impl<T, Unit> Box2<T, Unit> {
    pub fn new(min: Point2<T, Unit>, max: Point2<T, Unit>) -> (b: Self)
        ensures
            b.min == min,
            b.max == max,
    {
        Box2 { min, max }
    }
}

/// A point positioned in the overworld.
pub type OverworldPoint<T> = Point2<T, Overworld>;

/// A point positioned on the screen.
pub type ScreenPoint<T> = Point2<T, Screen>;

/// An axis-aligned region of the overworld.
pub type OverworldRect<T> = Box2<T, Overworld>;

/// An axis-aligned region of the screen.
pub type ScreenRect<T> = Box2<T, Screen>;

/// How overworld coordinates map onto the screen. The two spaces currently
/// coincide, so the translation is the identity on coordinates; only the
/// unit tag changes.
#[derive(Debug, Copy, Clone)]
pub struct TranslationContext;

impl TranslationContext {
    /// Re-tags an overworld point as the screen point it is drawn at.
    pub fn to_screen<T: Copy>(&self, point: OverworldPoint<T>) -> (r: ScreenPoint<T>)
        ensures
            r.x == point.x,
            r.y == point.y,
    {
        Point2 { x: point.x, y: point.y, _unit: core::marker::PhantomData }
    }
}

/// Conversion into the concrete container a rendering backend consumes.
pub trait OnScreen<Container> {
    /// What the conversion yields for this value.
    spec fn on_screen_ens(&self, r: Container) -> bool;

    fn on_screen(&self) -> (r: Container)
        ensures
            self.on_screen_ens(r),
    ;
}

impl<T: Copy> OnScreen<[T; 2]> for ScreenPoint<T> {
    /// A screen point converts to its coordinate pair, `x` first.
    open spec fn on_screen_ens(&self, r: [T; 2]) -> bool {
        r@ == seq![self.x, self.y]
    }

    fn on_screen(&self) -> (r: [T; 2]) {
        let r = [self.x, self.y];
        proof {
            assert(r@ =~= seq![self.x, self.y]);
        }
        r
    }
}

} // verus!
