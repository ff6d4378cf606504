//! Integer core of a Buddhabrot renderer: orbit bookkeeping, hit
//! accumulation with a running maximum, the coarse importance grid that
//! steers sampling, and the mapping of hit counts to grey levels.

pub mod color;
pub mod counts;
pub mod hits;
pub mod importance;
pub mod orbit;
pub mod sampling;

pub use color::{hits_to_col_lin, hits_to_col_sqrt};
pub use hits::HitGrid;
pub use importance::{ImportanceGrid, PixelRect};
pub use orbit::{escape_accepted, min_iters, Orbit};
pub use sampling::{pick_region, redraw, Redraws, REGION_REDRAWS};
