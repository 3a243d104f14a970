//! Index-level core of a Lennard-Jones particle simulation: the sizes of the
//! flat particle buffers and the bond-line list drawn between close pairs.
//! The floating-point physics runs in the host around this library.

pub mod bonds;
pub mod layout;
