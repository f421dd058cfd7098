//! Discrete core of a terrain-aware sunrise / sunset calculator: DEM source
//! classification, command-line value parsing, TIFF layout decisions, study
//! window and tile assembly, horizon scan geometry, and the reduction of
//! "sun above the horizon" samples to sunrise / sunset events.

pub mod cli;
pub mod error;
pub mod horizon;
pub mod layout;
pub mod report;
pub mod source;
pub mod sunrise;
pub mod text;
pub mod window;

pub use cli::{dem_reader_options, parse_dem, parse_positive_usize, DemReaderOptions, LocalFileStatus};
pub use error::TppssError;
pub use source::DemSource;
pub use sunrise::{
    sunrise_sunset_details_from_indices, sunrise_sunset_simple, SunriseSunset, SunriseSunsetDetails,
};
