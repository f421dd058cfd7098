use tppss::cli::{dem_reader_options, parse_dem, parse_positive_usize, LocalFileStatus};
use tppss::source::{is_remote, DemSource};
use tppss::text::{debug_quoted, parse_usize, quoted_message};

#[test]
fn remote_schemes_are_urls() {
    for url in ["gs://bucket/dem.tif", "s3://bucket/dem.tif", "http://host/dem.tif", "https://host/dem.tif"] {
        assert_eq!(DemSource::parse(url), DemSource::Url(url.to_string()));
        assert!(is_remote(url));
    }
}

#[test]
fn other_text_is_a_local_path() {
    for path in ["/data/dem.tif", "dem.tif", "gs:/x", "S3://bucket/x", "ftp://host/x", "", "https:"] {
        assert_eq!(DemSource::parse(path), DemSource::Local(path.to_string()));
        assert!(!is_remote(path));
    }
}

#[test]
fn parse_dem_keeps_remote_urls_without_looking_at_files() {
    let res = parse_dem("gs://bucket/dem.tif", &LocalFileStatus::Missing);
    assert_eq!(res, Ok("gs://bucket/dem.tif".to_string()));
}

#[test]
fn parse_dem_reports_missing_file() {
    let res = parse_dem("/nope/dem.tif", &LocalFileStatus::Missing);
    assert_eq!(res, Err("File \"/nope/dem.tif\" does not exist.".to_string()));
}

#[test]
fn parse_dem_reports_directory() {
    let res = parse_dem("/tmp", &LocalFileStatus::Directory);
    assert_eq!(res, Err("Path \"/tmp\" is a directory, not a file.".to_string()));
}

#[test]
fn parse_dem_gives_canonical_path_of_a_file() {
    let res = parse_dem("dem.tif", &LocalFileStatus::File("/data/dem.tif".to_string()));
    assert_eq!(res, Ok("/data/dem.tif".to_string()));
    let res = parse_dem("dem.tif", &LocalFileStatus::Unresolved("permission denied".to_string()));
    assert_eq!(res, Err("permission denied".to_string()));
}

#[test]
fn positive_usize_accepts_decimal_numbers() {
    assert_eq!(parse_positive_usize("5"), Ok(5));
    assert_eq!(parse_positive_usize("+7"), Ok(7));
    assert_eq!(parse_positive_usize("0012"), Ok(12));
    let max = usize::MAX.to_string();
    assert_eq!(parse_positive_usize(&max), Ok(usize::MAX));
}

#[test]
fn positive_usize_rejects_zero() {
    assert_eq!(parse_positive_usize("0"), Err("\"0\" must be greater than zero".to_string()));
    assert_eq!(parse_positive_usize("+000"), Err("\"+000\" must be greater than zero".to_string()));
}

#[test]
fn positive_usize_rejects_non_numbers() {
    for bad in ["", "+", "-", "-1", "-0", "abc", "1 ", " 1", "1.5", "١"] {
        assert_eq!(
            parse_positive_usize(bad),
            Err(format!("{bad:?} is not a positive integer")),
            "{bad:?}"
        );
    }
    let too_big = format!("{}0", usize::MAX);
    assert_eq!(parse_positive_usize(&too_big), Err(format!("{too_big:?} is not a positive integer")));
}

#[test]
fn parse_usize_matches_std() {
    let samples = [
        "", "0", "1", "+1", "-1", "++1", "+", "42", "007", "18446744073709551615", "18446744073709551616",
        "4294967295", "4294967296", "12a", "a12", " 3", "3 ", "99999999999999999999999",
    ];
    for s in samples {
        assert_eq!(parse_usize(s), s.parse::<usize>().ok(), "{s:?}");
    }
}

#[test]
fn decimal_text_round_trips() {
    for n in [1usize, 9, 10, 99, 100, 12345, usize::MAX / 3, usize::MAX] {
        assert_eq!(parse_positive_usize(&n.to_string()), Ok(n));
    }
}

#[test]
fn debug_quoting_matches_std() {
    assert_eq!(debug_quoted("a\"b\n"), format!("{:?}", "a\"b\n"));
    assert_eq!(quoted_message("<", "x", ">"), "<\"x\">".to_string());
}

#[test]
fn reader_options_carry_batch_size() {
    assert_eq!(dem_reader_options(Some(4)).tile_batch_size, Some(4));
    assert_eq!(dem_reader_options(None).tile_batch_size, None);
}
