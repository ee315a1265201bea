//! Fixed-point and integer digital signal processing building blocks.
pub mod types;
pub mod fec;
pub mod dither;
pub mod fast_math;
pub mod filtering;
pub mod pipeline;
pub mod mixed_radix;
pub mod dsm;
pub mod complex_math;
pub mod pll;
pub mod cordic;
pub mod studio;
pub mod controller;
pub mod filter_design;
pub mod modem;
pub mod kalman_compose;
pub mod wav;
