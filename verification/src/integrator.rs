//! Bounce control for the light-transport integrator.
//!
//! The integrator follows a ray through the scene. Intersecting the scene
//! and sampling a material are the caller's work; what to return for each
//! outcome, and when to stop, is decided here.

use vstd::prelude::*;

verus! {

/// What became of a ray that was sent into the scene.
#[derive(Clone, Copy, Debug, PartialEq, Eq, Structural)]
pub enum Event {
    /// The ray hit nothing.
    Miss,
    /// The ray hit a surface that scatters no ray: a light, or a surface that
    /// absorbed it.
    Absorbed,
    /// The ray hit a surface that scattered a new ray.
    Scattered,
}

/// The radiance that the integrator returns for a ray.
#[derive(Clone, Copy, Debug, PartialEq, Eq, Structural)]
pub enum Radiance {
    /// No light at all.
    Black,
    /// The scene's background.
    Background,
    /// What the surface at the hit point emits.
    Emitted,
    /// What the surface emits, plus its attenuation times the radiance of
    /// the scattered ray, which is followed with `depth` bounces left.
    EmittedPlusScattered { depth: i32 },
}

/// The radiance of a ray that may still bounce `depth` times and met with
/// `event`.
pub open spec fn radiance(depth: i32, event: Event) -> Radiance {
    if depth <= 0 {
        Radiance::Black
    } else {
        match event {
            Event::Miss => Radiance::Background,
            Event::Absorbed => Radiance::Emitted,
            Event::Scattered => Radiance::EmittedPlusScattered { depth: (depth - 1) as i32 },
        }
    }
}

/// The number of rays that are sent into the scene along a path that starts
/// with `depth` bounces left and meets with `events` in turn.
pub open spec fn rays_traced(depth: i32, events: Seq<Event>) -> nat
    decreases events.len(),
{
    if events.len() == 0 {
        0
    } else {
        match radiance(depth, events[0]) {
            Radiance::Black => 0,
            Radiance::EmittedPlusScattered { depth: left } => 1 + rays_traced(
                left,
                events.drop_first(),
            ),
            _ => 1,
        }
    }
}

/// A path never sends more rays into the scene than it has bounces: the
/// recursion ends after at most `depth` rays, whatever the scene does.
pub proof fn lemma_rays_bounded(depth: i32, events: Seq<Event>)
    ensures
        rays_traced(depth, events) <= if depth <= 0 { 0 } else { depth as int },
    decreases events.len(),
{
    if events.len() > 0 && depth > 0 {
        lemma_rays_bounded((depth - 1) as i32, events.drop_first());
    }
}

/// Says whether a ray with `depth` bounces left is not to be followed at
/// all: its radiance is black whatever it would meet.
pub fn exhausted(depth: i32) -> (done: bool)
    ensures
        done == (depth <= 0),
        done ==> forall|event: Event| radiance(depth, event) == Radiance::Black,
{
    depth <= 0
}

/// Decides the radiance of a ray that may still bounce `depth` times and met
/// with `event`. With no bounce left it is black, whatever the event. A miss
/// gives the background, a hit without scattering gives the emission alone,
/// and a scattering hit adds the attenuated radiance of the scattered ray,
/// which has one bounce less.
pub fn ray_color(depth: i32, event: Event) -> (r: Radiance)
    ensures
        r == radiance(depth, event),
        depth <= 0 ==> r == Radiance::Black,
        r matches Radiance::EmittedPlusScattered { depth: left } ==> 0 <= left < depth,
{
    if depth <= 0 {
        return Radiance::Black;
    }
    match event {
        Event::Miss => Radiance::Background,
        Event::Absorbed => Radiance::Emitted,
        Event::Scattered => Radiance::EmittedPlusScattered { depth: depth - 1 },
    }
}

} // verus!
