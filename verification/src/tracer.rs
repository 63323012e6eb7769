//! How long a ray is followed.
//!
//! A ray is cast with a number of bounces. While bounces are left, the ray is tested
//! against the scene. If it reaches nothing, it ends. If it reaches an object, that object
//! is shaded, one bounce is used up, and a secondary ray leaves the surface with the bounces
//! that remain. What the ray collects is therefore what its first hit gives, followed by
//! what the secondary ray collects.
//!
//! The tracer holds the state of that process and decides each step. Its caller does the
//! arithmetic: it measures the distances, shades, and builds the secondary ray.

use vstd::prelude::*;
use crate::nearest::{in_reach, is_nearest, nearest, nearest_hit};

verus! {

/// The state of a ray in flight.
pub struct TracerState {
    /// The bounces that are left.
    pub bounces_left: nat,
    /// Whether the last test of the ray against the scene, if there was one, reached
    /// something.
    pub under_way: bool,
}

/// The state of a primary ray that is cast with `bounces` bounces.
pub open spec fn start(bounces: nat) -> TracerState {
    TracerState { bounces_left: bounces, under_way: true }
}

/// Whether the ray is tested against the scene once more.
pub open spec fn casting(state: TracerState) -> bool {
    state.under_way && state.bounces_left > 0
}

/// One step: the state after the ray was tested against the scene, and the object to
/// shade, if any. `distances` holds what the test measured, object by object.
pub open spec fn step(state: TracerState, distances: Seq<Option<u32>>) -> (
    TracerState,
    Option<int>,
) {
    if !casting(state) {
        (state, None)
    } else {
        match nearest(distances) {
            Some(object) => (start((state.bounces_left - 1) as nat), Some(object)),
            None => (TracerState { bounces_left: state.bounces_left, under_way: false }, None),
        }
    }
}

/// The objects that a ray shades, in order, when the successive tests of the ray and of
/// its secondary rays measure `probes`. The run ends with the ray, or when the probes do.
pub open spec fn run(state: TracerState, probes: Seq<Seq<Option<u32>>>) -> Seq<int>
    decreases probes.len(),
{
    if probes.len() == 0 {
        Seq::empty()
    } else {
        match step(state, probes[0]) {
            (next, Some(object)) => seq![object] + run(next, probes.skip(1)),
            (_, None) => Seq::empty(),
        }
    }
}

/// Follows one ray through its bounces.
pub struct Tracer {
    bounces_left: u32,
    under_way: bool,
}

impl View for Tracer {
    type V = TracerState;

    closed spec fn view(&self) -> TracerState {
        TracerState { bounces_left: self.bounces_left as nat, under_way: self.under_way }
    }
}

impl Tracer {
    /// A tracer for a primary ray with `bounces` bounces.
    pub fn new(bounces: u32) -> (tracer: Tracer)
        ensures
            tracer@ == start(bounces as nat),
    {
        Tracer { bounces_left: bounces, under_way: true }
    }

    /// Whether the ray is to be tested against the scene. Once this is false it stays
    /// false.
    pub fn is_casting(&self) -> (yes: bool)
        ensures
            yes == casting(self@),
    {
        self.under_way && self.bounces_left > 0
    }

    /// The bounces that are left.
    pub fn bounces_left(&self) -> (left: u32)
        ensures
            left == self@.bounces_left,
    {
        self.bounces_left
    }

    /// Takes what a test of the ray against the scene measured and returns the object to
    /// shade. With `Some`, one bounce is used up and the tracer follows the secondary
    /// ray. With `None` the ray has ended: no bounce was left, or nothing was reached.
    pub fn resolve(&mut self, distances: &[Option<u32>]) -> (hit: Option<usize>)
        ensures
            final(self)@ == step(old(self)@, distances@).0,
            match hit {
                Some(object) => step(old(self)@, distances@).1 == Some(object as int),
                None => step(old(self)@, distances@).1 is None,
            },
            hit matches Some(object) ==> casting(old(self)@) && is_nearest(
                distances@,
                object as int,
            ),
            hit is None && casting(old(self)@) ==> forall|j: int|
                0 <= j < distances@.len() ==> !in_reach(#[trigger] distances@[j]),
    {
        if !self.is_casting() {
            return None;
        }
        let hit = nearest_hit(distances);
        match hit {
            Some(_) => {
                self.bounces_left = self.bounces_left - 1;
            },
            None => {
                self.under_way = false;
            },
        }
        hit
    }
}

/// A ray cast with no bounce is never tested, shades nothing and stays as it is,
/// whatever the scene holds.
pub proof fn lemma_no_bounce_no_hit(distances: Seq<Option<u32>>)
    ensures
        !casting(start(0)),
        step(start(0), distances) == (start(0), None::<int>),
{
}

/// A ray cast with `bounces > 0` that reaches an object shades that object and goes on
/// exactly as a ray cast with `bounces - 1`.
pub proof fn lemma_hit_then_one_bounce_less(bounces: nat, distances: Seq<Option<u32>>)
    requires
        bounces > 0,
        nearest(distances) is Some,
    ensures
        step(start(bounces), distances) == (start((bounces - 1) as nat), nearest(distances)),
{
}

/// A ray that reaches nothing ends, however many bounces it has left.
pub proof fn lemma_miss_ends_the_ray(state: TracerState, distances: Seq<Option<u32>>)
    requires
        nearest(distances) is None,
    ensures
        step(state, distances).1 is None,
        !casting(step(state, distances).0),
{
}

/// What a ray with `bounces > 0` collects is its first hit, followed by what a ray with
/// `bounces - 1` collects from the tests that come after.
pub proof fn lemma_run_unfolds(bounces: nat, probes: Seq<Seq<Option<u32>>>)
    requires
        bounces > 0,
        probes.len() > 0,
        nearest(probes[0]) is Some,
    ensures
        run(start(bounces), probes) == seq![nearest(probes[0]).unwrap()] + run(
            start((bounces - 1) as nat),
            probes.skip(1),
        ),
{
}

/// A ray with no bounce collects nothing.
pub proof fn lemma_run_without_bounces(probes: Seq<Seq<Option<u32>>>)
    ensures
        run(start(0), probes) == Seq::<int>::empty(),
{
}

/// A ray never shades more objects than it has bounces: the count of bounces goes down
/// with every hit, so the process ends after at most that many steps.
pub proof fn lemma_run_is_bounded(state: TracerState, probes: Seq<Seq<Option<u32>>>)
    ensures
        run(state, probes).len() <= state.bounces_left,
        run(state, probes).len() <= probes.len(),
    decreases probes.len(),
{
    if probes.len() > 0 {
        let (next, hit) = step(state, probes[0]);
        if hit is Some {
            lemma_run_is_bounded(next, probes.skip(1));
        }
    }
}

/// Each object that a ray shades is the nearest hit of the test at its depth.
pub proof fn lemma_run_shades_nearest(bounces: nat, probes: Seq<Seq<Option<u32>>>, depth: int)
    requires
        0 <= depth < run(start(bounces), probes).len(),
    ensures
        depth < probes.len(),
        nearest(probes[depth]) == Some(run(start(bounces), probes)[depth]),
    decreases probes.len(),
{
    let (next, hit) = step(start(bounces), probes[0]);
    if depth > 0 {
        assert(next == start((bounces - 1) as nat));
        lemma_run_shades_nearest((bounces - 1) as nat, probes.skip(1), depth - 1);
    }
}

} // verus!
