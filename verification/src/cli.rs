use vstd::prelude::*;

use crate::source::{is_remote, spec_is_remote};
use crate::text::{parse_usize, quoted_message, quoted_then, spec_parse_usize, str_debug, trim, trimmed_substring};

verus! {

/// What the file system says of a local DEM path.
#[derive(Debug, Clone, PartialEq, Eq)]
pub enum LocalFileStatus {
    /// Nothing exists at the path.
    Missing,
    /// The path names a directory.
    Directory,
    /// The path names something else; the canonical form of the path, as
    /// displayed.
    File(String),
    /// The path names something else, but canonicalizing it failed with the
    /// error whose text is held.
    Unresolved(String),
}

/// Validates the `--dem` argument. Remote URLs are kept as written; a local
/// path must name an existing file, and is replaced by its canonical form.
/// `status` is what the file system says of the path; it is not consulted for
/// a remote URL.
pub fn parse_dem(value: &str, status: &LocalFileStatus) -> (res: Result<String, String>)
    ensures
        spec_is_remote(value@) ==> (res matches Ok(v) && v@ == value@),
        !spec_is_remote(value@) ==> match status {
            LocalFileStatus::Missing => (res matches Err(e) && e@ == "File "@ + str_debug(value@)
                + " does not exist."@),
            LocalFileStatus::Directory => (res matches Err(e) && e@ == "Path "@ + str_debug(value@)
                + " is a directory, not a file."@),
            LocalFileStatus::File(p) => (res matches Ok(v) && v@ == p@),
            LocalFileStatus::Unresolved(m) => (res matches Err(e) && e@ == m@),
        },
{
    if is_remote(value) {
        return Ok(value.to_owned());
    }
    match status {
        LocalFileStatus::Missing => Err(quoted_message("File ", value, " does not exist.")),
        LocalFileStatus::Directory => Err(quoted_message("Path ", value, " is a directory, not a file.")),
        LocalFileStatus::File(p) => Ok(p.as_str().to_owned()),
        LocalFileStatus::Unresolved(m) => Err(m.as_str().to_owned()),
    }
}

/// Validates a strictly positive integer argument (`--tile-batch-size`),
/// written as `usize::from_str` reads it.
pub fn parse_positive_usize(value: &str) -> (res: Result<usize, String>)
    ensures
        spec_parse_usize(value@) is None ==> (res matches Err(e) && e@ == str_debug(value@)
            + " is not a positive integer"@),
        spec_parse_usize(value@) == Some(0int) ==> (res matches Err(e) && e@ == str_debug(value@)
            + " must be greater than zero"@),
        forall|n: int| n > 0 && spec_parse_usize(value@) == Some(n) ==> res == Ok::<usize, String>(n as usize),
{
    match parse_usize(value) {
        None => Err(quoted_then(value, " is not a positive integer")),
        Some(0) => Err(quoted_then(value, " must be greater than zero")),
        Some(n) => Ok(n),
    }
}

/// Options for opening a DEM.
#[derive(Debug, Clone, Copy, PartialEq, Eq)]
pub struct DemReaderOptions {
    /// How many tiles to fetch per request; `None` fetches them one by one.
    pub tile_batch_size: Option<usize>,
}

impl Default for DemReaderOptions {
    /// No batching.
    fn default() -> (res: Self)
        ensures
            res.tile_batch_size is None,
    {
        DemReaderOptions { tile_batch_size: None }
    }
}

/// The DEM reader options of the command line.
pub fn dem_reader_options(tile_batch_size: Option<usize>) -> (res: DemReaderOptions)
    ensures
        res.tile_batch_size == tile_batch_size,
{
    DemReaderOptions { tile_batch_size }
}


/// `p` is the position of the only comma of `s`.
pub open spec fn only_comma_at(s: Seq<char>, p: int) -> bool {
    &&& 0 <= p < s.len()
    &&& s[p] == ','
    &&& forall|j: int| 0 <= j < s.len() && j != p ==> s[j] != ','
}

/// Splits a `--position` argument `lat,lon` into its two fields, each
/// without surrounding whitespace. The text must hold exactly one comma.
pub fn split_latlon(value: &str) -> (res: Result<(String, String), String>)
    ensures
        res is Ok <==> exists|p: int| only_comma_at(value@, p),
        forall|p: int|
            only_comma_at(value@, p) ==> (res matches Ok((lat, lon)) && lat@ == trim(value@.subrange(0, p))
                && lon@ == trim(value@.subrange(p + 1, value@.len() as int))),
        res matches Err(e) ==> e@ == str_debug(value@) + " is not a valid Lat Lon (eg '45.235555,5.83890')"@,
{
    let n = value.unicode_len();
    let mut first: usize = n;
    let mut count: usize = 0;
    let mut i: usize = 0;
    while i < n
        invariant
            n == value@.len(),
            i <= n,
            count <= 1,
            count == 0 ==> first == n && forall|j: int| 0 <= j < i ==> value@[j] != ',',
            count == 1 ==> first < i && value@[first as int] == ',' && forall|j: int|
                0 <= j < i && j != first ==> value@[j] != ',',
        decreases n - i,
    {
        if value.get_char(i) == ',' {
            if count == 1 {
                proof {
                    assert forall|p: int| !only_comma_at(value@, p) by {
                        if only_comma_at(value@, p) {
                            if p != first as int {
                                assert(value@[first as int] == ',');
                            } else {
                                assert(value@[i as int] == ',');
                            }
                        }
                    }
                }
                return Err(quoted_then(value, " is not a valid Lat Lon (eg '45.235555,5.83890')"));
            }
            count = 1;
            first = i;
        }
        i = i + 1;
    }
    if count == 0 {
        proof {
            assert forall|p: int| !only_comma_at(value@, p) by {}
        }
        return Err(quoted_then(value, " is not a valid Lat Lon (eg '45.235555,5.83890')"));
    }
    assert(only_comma_at(value@, first as int));
    assert forall|p: int| only_comma_at(value@, p) implies p == first by {}
    let lat = trimmed_substring(value, 0, first);
    let lon = trimmed_substring(value, first + 1, n);
    Ok((lat, lon))
}

} // verus!
