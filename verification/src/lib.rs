//! Exact linear interpolation between control points ("color stops"), with
//! domain slicing and evenly spaced double-ended sampling.
//!
//! The scalar domain is the exact rational type [`rat::Rat`], so positions
//! such as `i / (k - 1)` and the blend factors derived from them carry no
//! rounding error, and the interpolation laws stated here hold exactly.

pub mod alpha;
pub mod gradient;
pub mod hues;
pub mod jch;
pub mod luma;
pub mod mix;
pub mod rat;
pub mod rgb;

pub use alpha::Alpha;
pub use gradient::Gradient;
pub use hues::{CamHue, LabHue, RgbHue};
pub use jch::Jch;
pub use luma::Luma;
pub use mix::Mix;
pub use rat::Rat;
pub use rgb::LinSrgb;
