use vstd::prelude::*;

verus! {

/// What the tracer does with a ray, given its remaining bounce budget and whether
/// it met a surface.
#[derive(Clone, Copy, Debug, PartialEq, Eq, Structural)]
pub enum Shade {
    /// The budget is spent: the ray contributes black.
    Black,
    /// The ray scatters off the surface it met; the scattered ray is traced with
    /// `depth` bounces left and its color is halved.
    Bounce { depth: u32 },
    /// The ray met nothing: it takes the sky gradient.
    Background,
}

/// The step taken for a ray with `depth` bounces left that did (`hit`) or did not
/// meet a surface.
pub open spec fn shade_of(depth: u32, hit: bool) -> Shade {
    if depth == 0 {
        Shade::Black
    } else if hit {
        Shade::Bounce { depth: (depth - 1) as u32 }
    } else {
        Shade::Background
    }
}

/// Decides what becomes of a ray with `depth` bounces left: black once the budget
/// is spent, whatever the scene; otherwise a bounce with one bounce fewer when it
/// met a surface, and the background when it did not.
pub fn shade_step(depth: u32, hit: bool) -> (r: Shade)
    ensures
        r == shade_of(depth, hit),
{
    if depth == 0 {
        Shade::Black
    } else if hit {
        Shade::Bounce { depth: depth - 1 }
    } else {
        Shade::Background
    }
}

/// The number of bounces along a traced path that starts with `depth` bounces left,
/// where `hits[n]` tells whether the ray after `n` bounces met a surface.
pub open spec fn bounces(depth: u32, hits: Seq<bool>) -> nat
    decreases hits.len(),
{
    if hits.len() == 0 {
        0
    } else {
        match shade_of(depth, hits[0]) {
            Shade::Bounce { depth: next } => 1 + bounces(next, hits.drop_first()),
            _ => 0,
        }
    }
}

/// A ray with no bounces left is black, whatever the scene holds.
pub proof fn lemma_depth_zero_is_black(hit: bool)
    ensures
        shade_of(0, hit) == Shade::Black,
        forall|hits: Seq<bool>| bounces(0, hits) == 0,
{
    assert forall|hits: Seq<bool>| bounces(0, hits) == 0 by {
        if hits.len() > 0 {
            assert(shade_of(0, hits[0]) == Shade::Black);
        }
    }
}

/// However many surfaces a path meets, it bounces at most `depth` times: the
/// tracer never goes deeper than the budget it started with.
pub proof fn lemma_bounces_within_depth(depth: u32, hits: Seq<bool>)
    ensures
        bounces(depth, hits) <= depth,
    decreases hits.len(),
{
    if hits.len() > 0 && depth > 0 && hits[0] {
        lemma_bounces_within_depth((depth - 1) as u32, hits.drop_first());
    }
}

} // verus!
