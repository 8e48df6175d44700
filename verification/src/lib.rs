//! Content-aware image narrowing: the least important top-to-bottom path of
//! pixels is found and deleted, one column at a time, until the picture has
//! the width that was asked for.
//!
//! A picture is scored pixel by pixel (`energy`), the connected path of
//! smallest total score is found (`seam`) and taken out (`remove`), and the
//! three are repeated until the target width is reached (`carve`).

pub mod carve;
pub mod energy;
pub mod error;
pub mod grid;
pub mod raster;
pub mod remove;
pub mod root;
pub mod seam;
pub mod target;

pub use crate::carve::{carve_step, checked_seam_carve, seam_carve, Carver};
pub use crate::energy::{
    compute_energy, measure_color_gap_sq, measure_contrast, pixel_energy, EnergyMap, ENERGY_ONE,
    MAX_COLOR_GAP_SQ,
};
pub use crate::error::CarveError;
pub use crate::grid::Grid;
pub use crate::raster::{Pixel, Raster};
pub use crate::remove::{checked_remove_seam, remove_seam};
pub use crate::root::{isqrt, isqrt_below};
pub use crate::seam::{cumulative_costs, find_seam, seam_fits_grid, CostTable};
pub use crate::target::{parse_target_width, seams_to_remove};
