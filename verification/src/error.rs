use vstd::prelude::*;

verus! {

/// Why a DEM or a request is refused.
#[derive(Debug, Clone, PartialEq, Eq)]
pub enum TppssError {
    /// The DEM's coordinate reference system is projected, not geographic.
    NonGeographicCrs,
    /// The DEM's coordinate reference system is missing or unsupported.
    UnsupportedCrs,
    /// The DEM's geotransform is missing or unsupported.
    MissingGeoTransform,
    /// The DEM has more than one sample per pixel.
    UnsupportedSamplesPerPixel,
    /// The DEM is not tiled.
    UntiledTiff,
    /// The DEM's sample type is not numeric.
    UnsupportedDataType,
    /// The DEM path or URL cannot be read.
    UnsupportedSource(String),
    /// An input value is invalid.
    InvalidInput(String),
    /// A timezone name is invalid.
    InvalidTimezone(String),
    /// Local midnight of a day does not exist in a timezone.
    InvalidLocalTime { timezone: String, time: String },
}

} // verus!
