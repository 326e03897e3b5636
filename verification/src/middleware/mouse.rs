//! The pointer-side helpers the library owns: choosing a random action
//! point inside a region. Moving the pointer and clicking are the
//! actuator's business, outside the library.
use vstd::prelude::*;

verus! {

/// Client handle for the pointer actuator.
#[derive(Debug)]
pub struct Mouse {}

impl Default for Mouse {
    fn default() -> (r: Mouse) {
        Mouse {  }
    }
}

/// The two pointer buttons an action can press.
#[derive(Debug, Clone, Copy, PartialEq, Eq, Structural)]
pub enum MouseKeys {
    Left,
    Right,
}

/// Relies on rand::Rng::gen_range over `lo..hi` (i32): a draw from
/// [lo, hi). It panics only on an empty range, which the precondition
/// excludes; nothing more is promised of the value.
#[verifier::external_body]
fn gen_range_i32(lo: i32, hi: i32) -> (r: i32)
    requires
        lo < hi,
    ensures
        lo <= r < hi,
{
    rand::Rng::gen_range(&mut rand::thread_rng(), lo..hi)
}

impl Mouse {
    /// A random action point strictly inside the half-open box
    /// `[min_x, max_x) x [min_y, max_y)`.
    pub fn random_xy(&self, min_x: i32, min_y: i32, max_x: i32, max_y: i32) -> (r: (i32, i32))
        requires
            min_x < max_x,
            min_y < max_y,
        ensures
            min_x <= r.0 < max_x,
            min_y <= r.1 < max_y,
    {
        let x = gen_range_i32(min_x, max_x);
        let y = gen_range_i32(min_y, max_y);
        (x, y)
    }
}

} // verus!
