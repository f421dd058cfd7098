use vstd::prelude::*;

verus! {

/// The five sectors in which the horizon mask scans the study area, from
/// north through east, south and west back to north.
#[derive(Debug, Clone, Copy, PartialEq, Eq)]
pub enum Sector {
    /// North of the observer, looking east of north.
    NorthEast,
    /// Columns east of the observer (the observer's column included).
    East,
    /// Rows south of the observer (the observer's row included).
    South,
    /// Columns west of the observer.
    West,
    /// North of the observer, looking west of north.
    NorthWest,
}

/// The observer's pixel `(y_obs, x_obs)` in a study area of `height` x
/// `width` pixels.
#[derive(Debug, Clone, Copy, PartialEq, Eq)]
pub struct MaskGeometry {
    pub x_obs: usize,
    pub y_obs: usize,
    pub height: usize,
    pub width: usize,
}

impl MaskGeometry {
    /// The observer lies inside the study area.
    pub open spec fn wf(self) -> bool {
        self.x_obs < self.width && self.y_obs < self.height
    }
}

/// A cell of the study area whose azimuth is one bin edge of a sector scan,
/// shifted by `turn` full turns (360 degrees).
#[derive(Debug, Clone, Copy, PartialEq, Eq)]
pub struct BinCell {
    pub row: usize,
    pub col: usize,
    pub turn: i8,
}

/// Number of azimuths of the horizon mask per sector: `precision * 90 + 1`
/// for a quarter turn (north-east, north-west) and `2 * (precision * 90 + 1) - 1`
/// for a half turn (east, south, west).
pub open spec fn spec_sector_len(sector: Sector, precision: int) -> int {
    let quarter = precision * 90 + 1;
    match sector {
        Sector::NorthEast | Sector::NorthWest => quarter,
        _ => 2 * quarter - 1,
    }
}

/// Number of azimuths of the horizon mask in `sector`.
pub fn sector_len(sector: Sector, precision: usize) -> (res: usize)
    requires
        2 * (precision * 90 + 1) - 1 <= usize::MAX,
    ensures
        res == spec_sector_len(sector, precision as int),
{
    let quarter = precision * 90 + 1;
    match sector {
        Sector::NorthEast | Sector::NorthWest => quarter,
        _ => 2 * quarter - 1,
    }
}

/// Number of isolines a sector scans: the rows north of the observer for
/// the northern sectors (none north-east when the observer is in the first
/// column), the columns from the observer's eastwards, the rows from the
/// observer's southwards, the columns west of the observer.
pub open spec fn spec_isolines(g: MaskGeometry, sector: Sector) -> int {
    match sector {
        Sector::NorthEast => if g.x_obs > 0 { g.y_obs as int } else { 0 },
        Sector::NorthWest => g.y_obs as int,
        Sector::East => g.width - g.x_obs,
        Sector::South => g.height - g.y_obs,
        Sector::West => g.x_obs as int,
    }
}

/// Number of isolines scanned in `sector`.
pub fn sector_isolines(g: &MaskGeometry, sector: Sector) -> (res: usize)
    requires
        g.wf(),
    ensures
        res == spec_isolines(*g, sector),
{
    match sector {
        Sector::NorthEast => if g.x_obs > 0 { g.y_obs } else { 0 },
        Sector::NorthWest => g.y_obs,
        Sector::East => g.width - g.x_obs,
        Sector::South => g.height - g.y_obs,
        Sector::West => g.x_obs,
    }
}

/// The `i`-th bin edge of isoline `isoline` of a sector scan: north-east,
/// the row's columns from the one west of the observer eastwards, that first
/// column a turn back; north-west, the row's columns up to the observer's,
/// the observer's column a turn ahead; east, the column's rows from the top;
/// south, the row's columns from the east; west, the column's rows from the
/// bottom.
pub open spec fn spec_bin_cell(g: MaskGeometry, sector: Sector, isoline: int, i: int) -> BinCell {
    match sector {
        Sector::NorthEast => BinCell {
            row: isoline as usize,
            col: (g.x_obs - 1 + i) as usize,
            turn: if i == 0 { -1i8 } else { 0i8 },
        },
        Sector::NorthWest => BinCell {
            row: isoline as usize,
            col: i as usize,
            turn: if i == g.x_obs { 1i8 } else { 0i8 },
        },
        Sector::East => BinCell { row: i as usize, col: (g.x_obs + isoline) as usize, turn: 0 },
        Sector::South => BinCell { row: (g.y_obs + isoline) as usize, col: (g.width - 1 - i) as usize, turn: 0 },
        Sector::West => BinCell { row: (g.height - 1 - i) as usize, col: isoline as usize, turn: 0 },
    }
}

/// Number of bin edges of an isoline of `sector`.
pub open spec fn spec_bin_count(g: MaskGeometry, sector: Sector) -> int {
    match sector {
        Sector::NorthEast => g.width - g.x_obs + 1,
        Sector::NorthWest => g.x_obs + 1,
        Sector::East | Sector::West => g.height as int,
        Sector::South => g.width as int,
    }
}

/// The cells whose azimuths are the bin edges of isoline `isoline` of
/// `sector`, in scan order; each lies inside the study area.
pub fn sector_bin_cells(g: &MaskGeometry, sector: Sector, isoline: usize) -> (res: Vec<BinCell>)
    requires
        g.wf(),
        isoline < spec_isolines(*g, sector),
    ensures
        res@.len() == spec_bin_count(*g, sector),
        forall|i: int| 0 <= i < res@.len() ==> #[trigger] res@[i] == spec_bin_cell(*g, sector, isoline as int, i),
        forall|i: int| 0 <= i < res@.len() ==> #[trigger] res@[i].row < g.height && res@[i].col < g.width,
        forall|i: int|
            0 <= i < res@.len() ==> lies_on_isoline(*g, sector, isoline as int, #[trigger] res@[i].row as int, res@[i].col as int),
{
    let n: usize = match sector {
        Sector::NorthEast => g.width - g.x_obs + 1,
        Sector::NorthWest => g.x_obs + 1,
        Sector::East | Sector::West => g.height,
        Sector::South => g.width,
    };
    let mut res: Vec<BinCell> = Vec::new();
    let mut i: usize = 0;
    while i < n
        invariant
            g.wf(),
            isoline < spec_isolines(*g, sector),
            n == spec_bin_count(*g, sector),
            i <= n,
            res@.len() == i,
            forall|j: int| 0 <= j < i ==> #[trigger] res@[j] == spec_bin_cell(*g, sector, isoline as int, j),
            forall|j: int| 0 <= j < i ==> #[trigger] res@[j].row < g.height && res@[j].col < g.width,
        decreases n - i,
    {
        let c = match sector {
            Sector::NorthEast => BinCell { row: isoline, col: g.x_obs - 1 + i, turn: if i == 0 { -1 } else { 0 } },
            Sector::NorthWest => BinCell { row: isoline, col: i, turn: if i == g.x_obs { 1 } else { 0 } },
            Sector::East => BinCell { row: i, col: g.x_obs + isoline, turn: 0 },
            Sector::South => BinCell { row: g.y_obs + isoline, col: g.width - 1 - i, turn: 0 },
            Sector::West => BinCell { row: g.height - 1 - i, col: isoline, turn: 0 },
        };
        res.push(c);
        i = i + 1;
    }
    res
}

/// The cell whose elevation angle fills azimuth slot of a sector scan whose
/// azimuth fell in bin `bin` (the number of bin edges it passed), or `None`
/// when it fell before the first edge or past the last. North-east: the
/// column `bin - 1` east of the one west of the observer; north-west: column
/// `bin - 1`; east: row `bin` of the isoline's column; south: the `bin`-th
/// column from the east; west: the `bin`-th row from the bottom.
pub open spec fn spec_value_cell(g: MaskGeometry, sector: Sector, isoline: int, bin: int) -> Option<(usize, usize)> {
    match sector {
        Sector::NorthEast => if bin != 0 && bin != g.width - g.x_obs + 1 && g.x_obs - 1 + bin < g.width {
            Some((isoline as usize, (g.x_obs - 1 + bin) as usize))
        } else {
            None
        },
        Sector::NorthWest => if bin != 0 && bin != g.x_obs + 1 && bin - 1 <= g.x_obs {
            Some((isoline as usize, (bin - 1) as usize))
        } else {
            None
        },
        Sector::East => if bin != 0 && bin < g.height {
            Some((bin as usize, (g.x_obs + isoline) as usize))
        } else {
            None
        },
        Sector::South => if bin != 0 && bin < g.width {
            Some(((g.y_obs + isoline) as usize, (g.width - 1 - bin) as usize))
        } else {
            None
        },
        Sector::West => if bin != 0 && bin < g.height {
            Some(((g.height - 1 - bin) as usize, isoline as usize))
        } else {
            None
        },
    }
}

/// The cell whose elevation angle the sector scan keeps for an azimuth that
/// fell in bin `bin` of isoline `isoline`; it always lies inside the study
/// area.
pub fn sector_value_cell(g: &MaskGeometry, sector: Sector, isoline: usize, bin: usize) -> (res: Option<(usize, usize)>)
    requires
        g.wf(),
        isoline < spec_isolines(*g, sector),
        bin <= spec_bin_count(*g, sector),
    ensures
        res == spec_value_cell(*g, sector, isoline as int, bin as int),
        res matches Some((r, c)) ==> r < g.height && c < g.width && lies_on_isoline(*g, sector, isoline as int, r as int, c as int),
{
    match sector {
        Sector::NorthEast => {
            if bin != 0 && bin != g.width - g.x_obs + 1 && g.x_obs - 1 + bin < g.width {
                Some((isoline, g.x_obs - 1 + bin))
            } else {
                None
            }
        },
        Sector::NorthWest => {
            if bin != 0 && bin != g.x_obs + 1 && bin - 1 <= g.x_obs {
                Some((isoline, bin - 1))
            } else {
                None
            }
        },
        Sector::East => {
            if bin != 0 && bin != g.height && bin < g.height {
                Some((bin, g.x_obs + isoline))
            } else {
                None
            }
        },
        Sector::South => {
            if bin != 0 && bin != g.width && bin < g.width {
                Some((g.y_obs + isoline, g.width - 1 - bin))
            } else {
                None
            }
        },
        Sector::West => {
            if bin != 0 && bin != g.height && bin < g.height {
                Some((g.height - 1 - bin, isoline))
            } else {
                None
            }
        },
    }
}

/// Isoline `isoline` of a sector scan is a line of the study area: for the
/// northern sectors row `isoline`; east of the observer column
/// `x_obs + isoline`; south of it row `y_obs + isoline`; west of it column
/// `isoline`. Whether cell `(row, col)` lies on it.
pub open spec fn lies_on_isoline(g: MaskGeometry, sector: Sector, isoline: int, row: int, col: int) -> bool {
    match sector {
        Sector::NorthEast | Sector::NorthWest => row == isoline,
        Sector::East => col == g.x_obs + isoline,
        Sector::South => row == g.y_obs + isoline,
        Sector::West => col == isoline,
    }
}

/// A sector scan pairs each azimuth with an elevation read on the isoline
/// it bins: every bin edge of an isoline is a cell of that isoline, inside
/// the study area, and whenever an azimuth that fell in bin `bin` keeps an
/// elevation angle, it is read at the bin edge that closes that bin (edge
/// `bin`, or `bin - 1` north-west, where the edges run towards the
/// observer's column), so on the same isoline.
pub proof fn lemma_scan_reads_its_isoline(g: MaskGeometry, sector: Sector, isoline: int, bin: int)
    requires
        g.wf(),
        0 <= isoline < spec_isolines(g, sector),
        0 <= bin <= spec_bin_count(g, sector),
    ensures
        forall|i: int|
            0 <= i < spec_bin_count(g, sector) ==> {
                let c = #[trigger] spec_bin_cell(g, sector, isoline, i);
                &&& lies_on_isoline(g, sector, isoline, c.row as int, c.col as int)
                &&& c.row < g.height
                &&& c.col < g.width
            },
        spec_value_cell(g, sector, isoline, bin) matches Some((r, c)) ==> {
            let edge = match sector {
                Sector::NorthWest => bin - 1,
                _ => bin,
            };
            &&& 0 <= edge < spec_bin_count(g, sector)
            &&& spec_bin_cell(g, sector, isoline, edge).row == r
            &&& spec_bin_cell(g, sector, isoline, edge).col == c
            &&& lies_on_isoline(g, sector, isoline, r as int, c as int)
        },
{
}

/// The concatenation of a sequence of sequences, in order.
pub open spec fn concat_all<T>(parts: Seq<Seq<T>>) -> Seq<T>
    decreases parts.len(),
{
    if parts.len() == 0 {
        Seq::empty()
    } else {
        concat_all(parts.drop_last()) + parts.last()
    }
}

/// Concatenates arrays, in order.
pub fn concat_arrays<T: Copy>(arrays: &Vec<Vec<T>>) -> (res: Vec<T>)
    requires
        concat_all(arrays@.map_values(|a: Vec<T>| a@)).len() <= usize::MAX,
    ensures
        res@ == concat_all(arrays@.map_values(|a: Vec<T>| a@)),
{
    let ghost parts = arrays@.map_values(|a: Vec<T>| a@);
    let mut out: Vec<T> = Vec::new();
    let mut k: usize = 0;
    while k < arrays.len()
        invariant
            parts == arrays@.map_values(|a: Vec<T>| a@),
            k <= arrays@.len(),
            out@ == concat_all(parts.take(k as int)),
            concat_all(parts).len() <= usize::MAX,
        decreases arrays@.len() - k,
    {
        proof {
            lemma_concat_prefix_len(parts, k as int + 1);
        }
        let a = &arrays[k];
        let mut i: usize = 0;
        let ghost base = out@;
        while i < a.len()
            invariant
                k < arrays@.len(),
                a@ == parts[k as int],
                i <= a@.len(),
                out@ == base + a@.take(i as int),
                base.len() + a@.len() <= usize::MAX,
            decreases a@.len() - i,
        {
            out.push(a[i]);
            assert(a@.take(i + 1) =~= a@.take(i as int).push(a@[i as int]));
            i = i + 1;
        }
        assert(a@.take(a@.len() as int) =~= a@);
        assert(parts.take(k + 1).drop_last() =~= parts.take(k as int));
        k = k + 1;
    }
    assert(parts.take(parts.len() as int) =~= parts);
    out
}

proof fn lemma_concat_prefix_len<T>(parts: Seq<Seq<T>>, k: int)
    requires
        0 <= k <= parts.len(),
    ensures
        concat_all(parts.take(k)).len() <= concat_all(parts).len(),
        k > 0 ==> concat_all(parts.take(k)) == concat_all(parts.take(k - 1)) + parts[k - 1],
    decreases parts.len() - k,
{
    if k > 0 {
        assert(parts.take(k).drop_last() =~= parts.take(k - 1));
    }
    if k < parts.len() {
        lemma_concat_prefix_len(parts, k + 1);
        assert(parts.take(k + 1).drop_last() =~= parts.take(k));
    } else {
        assert(parts.take(k) =~= parts);
    }
}

} // verus!
