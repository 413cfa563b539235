//! Ambient-lighting core: maps the LEDs round a screen to sampling rectangles,
//! flattens those into frame-buffer offsets, averages and colour-corrects each
//! rectangle, and frames the colours for the serial link.

pub mod rounding;
pub mod regions;
pub mod offsets;
pub mod reducer;
pub mod packet;
pub mod pacing;
