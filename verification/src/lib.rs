//! Verified discrete core of a small stochastic path tracer: the plain-text
//! pixel sink with its scan order, and the control decisions of the
//! integrator. The numeric geometry is left to the program built around it.

pub mod decimal;
pub mod layout;
pub mod ppm;
pub mod scan;
pub mod trace;
