//! μLottie compiler core: the verified parts of the ahead-of-time compiler that
//! turns a Lottie animation into a JavaScript module.

pub mod caps;
pub mod text;
pub mod lines;
pub mod backend;
pub mod ir;
pub mod expr;
pub mod data;
pub mod eval;
