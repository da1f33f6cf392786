//! A small symbolic-algebra engine: expression trees over exact fractions,
//! a rule-based simplifier, symbolic differentiation and infix rendering,
//! each with a verified contract.

pub mod differentiate;
pub mod number;
pub mod render;
pub mod simplify;
pub mod term;

pub use number::Num;
pub use simplify::TraceEvent;
pub use differentiate::DiffError;
pub use term::Term;

