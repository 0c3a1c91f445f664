//! Expression compilation: resolve what the compiler already knows about an
//! expression body, and rewrite the body to say so.

pub mod resolve;
pub mod pass;
pub mod syntax;
