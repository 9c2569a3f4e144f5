//! One import for every filter and its configuration type.

pub use super::gaussian::{GaussianFilter, GaussianFilterOption};
pub use super::grayscale::GrayscaleFilter;
pub use super::kuwahara::{KuwaharaFilter, KuwaharaFilterOptions};
pub use super::mosaic::{MosaicFilter, MosaicFilterOption};
pub use super::truncate_color::{TruncateColorFilter, TruncateColorFilterOption, TruncateComponent};
