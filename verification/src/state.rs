//! Properties of the display panel shared by the drawing and input code.

use vstd::prelude::*;

verus! {

/// Panel width in pixels.
pub const LCD_WIDTH: u16 = 410;
/// Panel height in pixels.
pub const LCD_HEIGHT: u16 = 502;
/// First panel column that is visible.
pub const LCD_COL_OFFSET: u16 = 22;

} // verus!
