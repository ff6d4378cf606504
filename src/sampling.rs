//! Choices made while drawing candidate points: which region to draw from,
//! and whether a draw that falls in a known interior must be redrawn.
use vstd::prelude::*;
use rand::seq::SliceRandom;
use crate::importance::PixelRect;

verus! {

#[verifier::external_type_specification]
#[verifier::external_body]
pub struct ExThreadRng(rand::rngs::ThreadRng);

/// How many times a draw inside a region may be redrawn before the last
/// draw is kept.
pub const REGION_REDRAWS: u32 = 5;

/// How many more redraws a sampler may make.
#[derive(Clone, Copy, Debug, PartialEq, Eq, Structural)]
pub enum Redraws {
    /// At most this many more.
    Limited(u32),
    /// As many as it takes.
    Unlimited,
}

/// Whether a draw that landed in a known interior is drawn again under
/// `budget`.
pub open spec fn redraw_allowed(budget: Redraws, cullable: bool) -> bool {
    cullable && match budget {
        Redraws::Limited(n) => n > 0,
        Redraws::Unlimited => true,
    }
}

/// The budget left after deciding: one redraw fewer when one is made.
pub open spec fn budget_after(budget: Redraws, redrawn: bool) -> Redraws {
    match budget {
        Redraws::Limited(n) => if redrawn {
            Redraws::Limited((n - 1) as u32)
        } else {
            budget
        },
        Redraws::Unlimited => budget,
    }
}

/// Relies on rand's `SliceRandom::choose`: `None` exactly when the slice is
/// empty, otherwise one of its elements.
#[verifier::external_body]
fn choose_rect(rng: &mut rand::rngs::ThreadRng, regions: &Vec<PixelRect>) -> (r: Option<PixelRect>)
    ensures
        r.is_none() <==> regions@.len() == 0,
        r matches Some(p) ==> regions@.contains(p),
{
    regions.as_slice().choose(rng).copied()
}

/// Picks the region to draw the next candidate from, uniformly among the
/// entries of `regions`; `None` when there is none.
pub fn pick_region(rng: &mut rand::rngs::ThreadRng, regions: &Vec<PixelRect>) -> (r: Option<
    PixelRect,
>)
    ensures
        r.is_none() <==> regions@.len() == 0,
        r matches Some(p) ==> regions@.contains(p),
{
    choose_rect(rng, regions)
}

/// Decides whether to draw again after a draw for which `cullable` tells
/// whether it lies in a known interior, and spends one redraw if so.
pub fn redraw(budget: &mut Redraws, cullable: bool) -> (r: bool)
    ensures
        r == redraw_allowed(*old(budget), cullable),
        *final(budget) == budget_after(*old(budget), r),
{
    if !cullable {
        return false;
    }
    match *budget {
        Redraws::Limited(n) => {
            if n > 0 {
                *budget = Redraws::Limited(n - 1);
                true
            } else {
                false
            }
        },
        Redraws::Unlimited => true,
    }
}

} // verus!
