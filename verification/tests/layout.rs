use tppss::layout::{
    check_tiling, select_ellipsoid_source, select_geo_transform, EllipsoidSource, GeoKeyFacts,
    GeoTransformSource, ModelTransformationFacts,
};
use tppss::TppssError;

#[test]
fn tiling_requires_one_sample_per_pixel() {
    assert_eq!(
        check_tiling(3, Some((2, 2)), Some(256), Some(256)),
        Err(TppssError::UnsupportedSamplesPerPixel)
    );
}

#[test]
fn tiling_requires_tiles() {
    assert_eq!(check_tiling(1, None, Some(256), Some(256)), Err(TppssError::UntiledTiff));
    assert_eq!(check_tiling(1, Some((2, 2)), None, Some(256)), Err(TppssError::UntiledTiff));
    assert_eq!(check_tiling(1, Some((2, 2)), Some(256), None), Err(TppssError::UntiledTiff));
    assert_eq!(check_tiling(1, Some((0, 2)), Some(256), Some(256)), Err(TppssError::UntiledTiff));
    assert_eq!(check_tiling(1, Some((2, 2)), Some(0), Some(256)), Err(TppssError::UntiledTiff));
}

#[test]
fn tiling_gives_tile_size() {
    assert_eq!(check_tiling(1, Some((3, 2)), Some(512), Some(256)), Ok((512, 256)));
}

#[test]
fn geo_transform_prefers_model_transformation() {
    let ok = Some(ModelTransformationFacts { len: 16, shear_free: true });
    assert_eq!(select_geo_transform(ok, Some(3), Some(6)), Ok(GeoTransformSource::ModelTransformation));
    let short = Some(ModelTransformationFacts { len: 12, shear_free: false });
    assert_eq!(select_geo_transform(short, Some(3), Some(6)), Err(TppssError::MissingGeoTransform));
    let sheared = Some(ModelTransformationFacts { len: 16, shear_free: false });
    assert_eq!(select_geo_transform(sheared, Some(3), Some(6)), Err(TppssError::MissingGeoTransform));
}

#[test]
fn geo_transform_falls_back_to_scale_and_tiepoint() {
    assert_eq!(select_geo_transform(None, Some(3), Some(6)), Ok(GeoTransformSource::ScaleAndTiepoint));
    assert_eq!(select_geo_transform(None, Some(1), Some(6)), Err(TppssError::MissingGeoTransform));
    assert_eq!(select_geo_transform(None, Some(3), Some(5)), Err(TppssError::MissingGeoTransform));
    assert_eq!(select_geo_transform(None, None, Some(6)), Err(TppssError::MissingGeoTransform));
    assert_eq!(select_geo_transform(None, Some(3), None), Err(TppssError::MissingGeoTransform));
}

fn geo(projected: Option<u16>, geographic: Option<u16>, params: bool) -> Option<GeoKeyFacts> {
    Some(GeoKeyFacts { projected_type: projected, geographic_type: geographic, has_ellipsoid_parameters: params })
}

#[test]
fn ellipsoid_rejects_missing_or_projected_crs() {
    assert_eq!(select_ellipsoid_source(None), Err(TppssError::UnsupportedCrs));
    assert_eq!(select_ellipsoid_source(geo(Some(32631), Some(4326), true)), Err(TppssError::NonGeographicCrs));
    assert_eq!(select_ellipsoid_source(geo(None, None, false)), Err(TppssError::UnsupportedCrs));
}

#[test]
fn ellipsoid_sources_in_order() {
    assert_eq!(select_ellipsoid_source(geo(None, Some(4269), true)), Ok(EllipsoidSource::GeoKeys));
    assert_eq!(select_ellipsoid_source(geo(None, Some(4326), false)), Ok(EllipsoidSource::Wgs84));
    assert_eq!(select_ellipsoid_source(geo(None, Some(4979), false)), Ok(EllipsoidSource::Wgs84));
    assert_eq!(select_ellipsoid_source(geo(None, Some(4269), false)), Ok(EllipsoidSource::Epsg(4269)));
}

#[test]
fn epsg_code_prefers_projected() {
    assert_eq!(geo(Some(2154), Some(4171), false).unwrap().epsg_code(), Some(2154));
    assert_eq!(geo(None, Some(4171), false).unwrap().epsg_code(), Some(4171));
    assert_eq!(geo(None, None, false).unwrap().epsg_code(), None);
}
