use vstd::prelude::*;

use crate::error::TppssError;

verus! {

/// Checks that a DEM's first image directory is single-band and tiled, and
/// gives its tile size `(tile_width, tile_height)`. The checks run in order:
/// one sample per pixel, then a tile grid, tile width and tile height that
/// are all present and non-zero.
pub fn check_tiling(
    samples_per_pixel: u16,
    tile_count: Option<(usize, usize)>,
    tile_width: Option<u32>,
    tile_height: Option<u32>,
) -> (res: Result<(usize, usize), TppssError>)
    ensures
        samples_per_pixel != 1 ==> res == Err::<(usize, usize), TppssError>(TppssError::UnsupportedSamplesPerPixel),
        samples_per_pixel == 1 ==> match (tile_count, tile_width, tile_height) {
            (Some((cx, cy)), Some(tw), Some(th)) => if cx == 0 || cy == 0 || tw == 0 || th == 0 {
                res == Err::<(usize, usize), TppssError>(TppssError::UntiledTiff)
            } else {
                res == Ok::<(usize, usize), TppssError>((tw as usize, th as usize))
            },
            _ => res == Err::<(usize, usize), TppssError>(TppssError::UntiledTiff),
        },
{
    if samples_per_pixel != 1 {
        return Err(TppssError::UnsupportedSamplesPerPixel);
    }
    let (count_x, count_y) = match tile_count {
        Some(c) => c,
        None => return Err(TppssError::UntiledTiff),
    };
    let tw = match tile_width {
        Some(w) => w as usize,
        None => return Err(TppssError::UntiledTiff),
    };
    let th = match tile_height {
        Some(h) => h as usize,
        None => return Err(TppssError::UntiledTiff),
    };
    if count_x == 0 || count_y == 0 || tw == 0 || th == 0 {
        return Err(TppssError::UntiledTiff);
    }
    Ok((tw, th))
}

/// What the model transformation tag of a DEM holds, as far as the choice of
/// a geotransform reads it.
#[derive(Debug, Clone, Copy, PartialEq, Eq)]
pub struct ModelTransformationFacts {
    /// Number of values in the tag.
    pub len: usize,
    /// The tag has its 16 values and both its shear terms (values 1 and 4)
    /// are zero.
    pub shear_free: bool,
}

/// Where a DEM's affine geotransform comes from.
#[derive(Debug, Clone, Copy, PartialEq, Eq)]
pub enum GeoTransformSource {
    /// From the 4x4 model transformation matrix.
    ModelTransformation,
    /// From the model pixel scale and the first model tiepoint.
    ScaleAndTiepoint,
}

/// Chooses the source of a DEM's geotransform. A model transformation, when
/// present, is used if it has 16 values and no shear; otherwise the pixel
/// scale (2 values or more) and tiepoint (6 values or more) are used. Any
/// other case is `MissingGeoTransform`.
pub fn select_geo_transform(
    model_transformation: Option<ModelTransformationFacts>,
    pixel_scale_len: Option<usize>,
    tiepoint_len: Option<usize>,
) -> (res: Result<GeoTransformSource, TppssError>)
    ensures
        res == match model_transformation {
            Some(m) => if m.len >= 16 && m.shear_free {
                Ok::<GeoTransformSource, TppssError>(GeoTransformSource::ModelTransformation)
            } else {
                Err(TppssError::MissingGeoTransform)
            },
            None => match (pixel_scale_len, tiepoint_len) {
                (Some(s), Some(t)) => if s >= 2 && t >= 6 {
                    Ok::<GeoTransformSource, TppssError>(GeoTransformSource::ScaleAndTiepoint)
                } else {
                    Err(TppssError::MissingGeoTransform)
                },
                _ => Err(TppssError::MissingGeoTransform),
            },
        },
{
    if let Some(m) = model_transformation {
        if m.len < 16 {
            return Err(TppssError::MissingGeoTransform);
        }
        if !m.shear_free {
            return Err(TppssError::MissingGeoTransform);
        }
        return Ok(GeoTransformSource::ModelTransformation);
    }
    let s = match pixel_scale_len {
        Some(s) => s,
        None => return Err(TppssError::MissingGeoTransform),
    };
    let t = match tiepoint_len {
        Some(t) => t,
        None => return Err(TppssError::MissingGeoTransform),
    };
    if s < 2 || t < 6 {
        return Err(TppssError::MissingGeoTransform);
    }
    Ok(GeoTransformSource::ScaleAndTiepoint)
}

/// What the GeoTIFF key directory of a DEM holds, as far as the choice of an
/// ellipsoid reads it.
#[derive(Debug, Clone, Copy, PartialEq, Eq)]
pub struct GeoKeyFacts {
    /// The projected CRS code, if any.
    pub projected_type: Option<u16>,
    /// The geographic CRS code, if any.
    pub geographic_type: Option<u16>,
    /// The key directory gives both the semi-major axis and the inverse
    /// flattening of the ellipsoid.
    pub has_ellipsoid_parameters: bool,
}

impl GeoKeyFacts {
    /// The EPSG code of the CRS: the projected code if there is one, else the
    /// geographic code.
    pub fn epsg_code(&self) -> (res: Option<u16>)
        ensures
            res == match self.projected_type {
                Some(p) => Some(p),
                None => self.geographic_type,
            },
    {
        match self.projected_type {
            Some(p) => Some(p),
            None => self.geographic_type,
        }
    }
}

/// Where a DEM's ellipsoid comes from.
#[derive(Debug, Clone, Copy, PartialEq, Eq)]
pub enum EllipsoidSource {
    /// The semi-major axis and inverse flattening in the key directory.
    GeoKeys,
    /// WGS84 (EPSG:4326 and EPSG:4979).
    Wgs84,
    /// The EPSG registry entry of this geographic CRS code; a code the
    /// registry does not describe is an unsupported CRS.
    Epsg(u16),
}

/// Chooses the source of a DEM's ellipsoid: no key directory is an
/// unsupported CRS, a projected CRS is refused, ellipsoid parameters in the
/// keys win, then EPSG:4326 and EPSG:4979 are WGS84, then any other EPSG
/// code is looked up; without a code the CRS is unsupported.
pub fn select_ellipsoid_source(geo: Option<GeoKeyFacts>) -> (res: Result<EllipsoidSource, TppssError>)
    ensures
        res == match geo {
            None => Err::<EllipsoidSource, TppssError>(TppssError::UnsupportedCrs),
            Some(g) => if g.projected_type is Some {
                Err(TppssError::NonGeographicCrs)
            } else if g.has_ellipsoid_parameters {
                Ok(EllipsoidSource::GeoKeys)
            } else {
                match g.geographic_type {
                    Some(code) => if code == 4326 || code == 4979 {
                        Ok(EllipsoidSource::Wgs84)
                    } else {
                        Ok(EllipsoidSource::Epsg(code))
                    },
                    None => Err(TppssError::UnsupportedCrs),
                }
            },
        },
{
    let g = match geo {
        Some(g) => g,
        None => return Err(TppssError::UnsupportedCrs),
    };
    if g.projected_type.is_some() {
        return Err(TppssError::NonGeographicCrs);
    }
    if g.has_ellipsoid_parameters {
        return Ok(EllipsoidSource::GeoKeys);
    }
    match g.epsg_code() {
        Some(code) => {
            if code == 4326 || code == 4979 {
                Ok(EllipsoidSource::Wgs84)
            } else {
                Ok(EllipsoidSource::Epsg(code))
            }
        },
        None => Err(TppssError::UnsupportedCrs),
    }
}

} // verus!
