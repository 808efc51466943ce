//! Integer colour and axis types for a spatial-math toolkit, with verified contracts.

/// The packed RGBA colour type and its conversions.
pub mod color;

/// Hexadecimal digits and the numbers they spell.
pub mod hex;

/// Small shared types such as the coordinate axis.
pub mod types;
