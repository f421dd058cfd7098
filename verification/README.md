# tppss

Sunrise and sunset times that account for the local topography read from a
DEM GeoTIFF.

- `src/` is the verified library (Verus): the discrete logic of the tool.
  - `source`: classifying a DEM location as a local path or an object-store URL.
  - `cli`: the command-line value checks (`--dem`, `--tile-batch-size`,
    `--position` splitting) and reader options.
  - `layout`: accepting a DEM's TIFF layout, and choosing where its
    geotransform and ellipsoid come from.
  - `window`: the observer's pixel, the study window around it, the tiles a
    window touches, and the assembly of a window from decoded tiles (with the
    proof that it yields the DEM restricted to the window).
  - `horizon`: the geometry of the five sector scans of the horizon mask.
  - `sunrise`: reducing the samples at which the sun is above the horizon to
    sunrise / sunset events, with the laws relating the simple and detailed
    answers.
  - `report`: the text of the day report and the yearly CSV.
  - `text`: string helpers (prefixes, trimming, decimal numbers).
- `app/` is the command-line program around it: file and network access
  (`async-tiff`, `object_store`), time zones and dates (`chrono`,
  `chrono-tz`), and all floating-point computation (sun position, ellipsoid
  geometry, elevation and azimuth angles, the horizon mask values).
- `tests/` exercises the library.
