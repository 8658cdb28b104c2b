pub mod bits;
pub mod decoder;
pub mod minifloat;
pub mod protocol;
pub mod util;
