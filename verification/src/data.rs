//! The wire format the runtime reads: what the encoder can take, and the
//! small pieces of it the verified passes build.

pub mod encode;

use vstd::prelude::*;

verus! {

/// A reference to one primitive shape: its shape index, the styles that paint
/// it (its own, then inherited), and its trim modifier if it has one.
#[derive(Clone, Debug, PartialEq, Eq)]
pub struct PrimRef {
    pub s: u32,
    pub y: Vec<u32>,
    pub tm: Option<u32>,
}

/// Whether a byte field holds its default, so the wire omits it.
pub fn is_zero_u8(v: &u8) -> (r: bool)
    ensures
        r == (*v == 0),
{
    *v == 0
}

/// Whether a flag holds its default, so the wire omits it.
pub fn is_false(v: &bool) -> (r: bool)
    ensures
        r == !*v,
{
    !*v
}

/// Whether an index field holds its default, so the wire omits it.
pub fn is_zero_u32(v: &u32) -> (r: bool)
    ensures
        r == (*v == 0),
{
    *v == 0
}

} // verus!
