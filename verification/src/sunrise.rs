use vstd::prelude::*;

use crate::error::TppssError;

verus! {

/// The first sunrise and the last sunset of a day, or the whole day on one
/// side of the horizon.
#[derive(Debug, Clone, PartialEq, Eq)]
pub enum SunriseSunset<T> {
    Times { sunrise: T, sunset: T },
    LightAllDay,
    NightAllDay,
}

/// Every sunrise and sunset of a day, in order, or the whole day on one side
/// of the horizon. `sunrises[k]` and `sunsets[k]` bound the `k`-th period of
/// sunlight.
#[derive(Debug, Clone, PartialEq, Eq)]
pub enum SunriseSunsetDetails<T> {
    Times { sunrises: Vec<T>, sunsets: Vec<T> },
    LightAllDay,
    NightAllDay,
}

/// The indices of the samples at which the sun is above the horizon are
/// sorted and name samples of the day (the largest is in range).
pub open spec fn valid_above(n_times: int, above: Seq<usize>) -> bool {
    &&& forall|i: int, j: int| 0 <= i <= j < above.len() ==> above[i] <= above[j]
    &&& above.len() > 0 ==> above.last() < n_times
}

/// Whether the sun sets between above-horizon samples `i` and `i + 1`: the
/// two samples are not consecutive.
pub open spec fn is_gap(above: Seq<usize>, i: int) -> bool {
    above[i + 1] - above[i] > 1
}

/// The positions `i < n` in `above` after which the sun sets, in order.
pub open spec fn gaps_upto(above: Seq<usize>, n: int) -> Seq<usize>
    decreases n,
{
    if n <= 0 {
        Seq::empty()
    } else if is_gap(above, n - 1) {
        gaps_upto(above, n - 1).push((n - 1) as usize)
    } else {
        gaps_upto(above, n - 1)
    }
}

/// The positions in `above` after which the sun sets before the day ends.
pub open spec fn gaps(above: Seq<usize>) -> Seq<usize> {
    gaps_upto(above, above.len() - 1)
}

/// Positions in `above` at which a period of sunlight starts: the first one,
/// and each one that follows a gap.
pub open spec fn sunrise_positions(above: Seq<usize>) -> Seq<int> {
    seq![0int] + gaps(above).map_values(|g: usize| g + 1)
}

/// Positions in `above` at which a period of sunlight ends: each one before
/// a gap, and the last one.
pub open spec fn sunset_positions(above: Seq<usize>) -> Seq<int> {
    gaps(above).map_values(|g: usize| g as int) + seq![above.len() - 1]
}

/// Reduces the above-horizon samples of a day to its first sunrise and last
/// sunset: night all day when the sun is never above the horizon, light all
/// day when it always is, else the times of the first and last samples above.
pub fn sunrise_sunset_simple<T: Copy>(times: &[T], above_horizon_indices: &[usize]) -> (res: SunriseSunset<T>)
    requires
        above_horizon_indices@.len() > 0 && above_horizon_indices@.len() != times@.len() ==> {
            &&& above_horizon_indices@[0] < times@.len()
            &&& above_horizon_indices@.last() < times@.len()
        },
    ensures
        above_horizon_indices@.len() == 0 ==> res == SunriseSunset::<T>::NightAllDay,
        above_horizon_indices@.len() != 0 && above_horizon_indices@.len() == times@.len() ==> res
            == SunriseSunset::<T>::LightAllDay,
        above_horizon_indices@.len() != 0 && above_horizon_indices@.len() != times@.len() ==> res
            == (SunriseSunset::Times {
            sunrise: times@[above_horizon_indices@[0] as int],
            sunset: times@[above_horizon_indices@.last() as int],
        }),
{
    let n = above_horizon_indices.len();
    if n == 0 {
        return SunriseSunset::NightAllDay;
    }
    if n == times.len() {
        return SunriseSunset::LightAllDay;
    }
    SunriseSunset::Times { sunrise: times[above_horizon_indices[0]], sunset: times[above_horizon_indices[n - 1]] }
}

proof fn lemma_gaps_upto(above: Seq<usize>, n: int)
    requires
        0 <= n < above.len() <= usize::MAX,
    ensures
        forall|k: int| 0 <= k < gaps_upto(above, n).len() ==> {
            &&& 0 <= #[trigger] gaps_upto(above, n)[k] < n
            &&& is_gap(above, gaps_upto(above, n)[k] as int)
        },
        forall|k1: int, k2: int|
            0 <= k1 < k2 < gaps_upto(above, n).len() ==> gaps_upto(above, n)[k1] < gaps_upto(above, n)[k2],
    decreases n,
{
    if n > 0 {
        lemma_gaps_upto(above, n - 1);
        let prev = gaps_upto(above, n - 1);
        let cur = gaps_upto(above, n);
        assert forall|k: int| 0 <= k < prev.len() implies cur[k] == prev[k] by {}
        if is_gap(above, n - 1) {
            assert(cur[prev.len() as int] == (n - 1) as usize);
        }
    }
}

/// Reduces the above-horizon samples of a day to all its sunrises and
/// sunsets: night all day when the sun is never above the horizon, light all
/// day when it always is; else a sunrise at the first sample above and after
/// each gap, and a sunset before each gap and at the last sample above.
pub fn sunrise_sunset_details_from_indices<T: Copy>(times: &[T], above_horizon_indices: &[usize]) -> (res:
    SunriseSunsetDetails<T>)
    requires
        above_horizon_indices@.len() != times@.len() ==> valid_above(times@.len() as int, above_horizon_indices@),
    ensures
        above_horizon_indices@.len() == 0 ==> res == SunriseSunsetDetails::<T>::NightAllDay,
        above_horizon_indices@.len() != 0 && above_horizon_indices@.len() == times@.len() ==> res
            == SunriseSunsetDetails::<T>::LightAllDay,
        above_horizon_indices@.len() != 0 && above_horizon_indices@.len() != times@.len() ==> (res matches SunriseSunsetDetails::Times { sunrises, sunsets } && {
            &&& sunrises@ == sunrise_positions(above_horizon_indices@).map_values(
                |p: int| times@[above_horizon_indices@[p] as int],
            )
            &&& sunsets@ == sunset_positions(above_horizon_indices@).map_values(
                |p: int| times@[above_horizon_indices@[p] as int],
            )
            &&& sunrises@.len() == sunsets@.len()
            &&& sunrises@.len() == gaps(above_horizon_indices@).len() + 1
        }),
{
    let ghost a = above_horizon_indices@;
    let n = above_horizon_indices.len();
    if n == 0 {
        return SunriseSunsetDetails::NightAllDay;
    }
    if n == times.len() {
        return SunriseSunsetDetails::LightAllDay;
    }
    let mut transitions: Vec<usize> = Vec::new();
    let mut i: usize = 0;
    while i < n - 1
        invariant
            n == a.len(),
            n > 0,
            i <= n - 1,
            a == above_horizon_indices@,
            valid_above(times@.len() as int, a),
            transitions@ == gaps_upto(a, i as int),
        decreases n - 1 - i,
    {
        if above_horizon_indices[i + 1] - above_horizon_indices[i] > 1 {
            transitions.push(i);
        }
        i = i + 1;
    }
    proof {
        lemma_gaps_upto(a, (n - 1) as int);
    }
    let ghost g = transitions@;
    assert(g == gaps(a));
    assert forall|k: int| 0 <= k < a.len() implies a[k] < times@.len() by {
        assert(a[k] <= a[a.len() - 1]);
    }
    let mut sunrises: Vec<T> = Vec::new();
    sunrises.push(times[above_horizon_indices[0]]);
    let mut k: usize = 0;
    while k < transitions.len()
        invariant
            g == transitions@,
            g == gaps(a),
            a == above_horizon_indices@,
            n == a.len(),
            forall|j: int| 0 <= j < g.len() ==> 0 <= #[trigger] g[j] < n - 1,
            forall|j: int| 0 <= j < a.len() ==> #[trigger] a[j] < times@.len(),
            k <= g.len(),
            sunrises@ == sunrise_positions(a).take(k + 1).map_values(|p: int| times@[a[p] as int]),
        decreases g.len() - k,
    {
        let t = transitions[k];
        sunrises.push(times[above_horizon_indices[t + 1]]);
        assert(sunrise_positions(a).take(k + 2) =~= sunrise_positions(a).take(k + 1).push(g[k as int] + 1));
        k = k + 1;
    }
    assert(sunrise_positions(a).take(g.len() + 1 as int) =~= sunrise_positions(a));
    let mut sunsets: Vec<T> = Vec::new();
    let mut k: usize = 0;
    while k < transitions.len()
        invariant
            g == transitions@,
            g == gaps(a),
            a == above_horizon_indices@,
            n == a.len(),
            forall|j: int| 0 <= j < g.len() ==> 0 <= #[trigger] g[j] < n - 1,
            forall|j: int| 0 <= j < a.len() ==> #[trigger] a[j] < times@.len(),
            k <= g.len(),
            sunsets@ == sunset_positions(a).take(k as int).map_values(|p: int| times@[a[p] as int]),
        decreases g.len() - k,
    {
        let t = transitions[k];
        sunsets.push(times[above_horizon_indices[t]]);
        assert(sunset_positions(a).take(k + 1) =~= sunset_positions(a).take(k as int).push(g[k as int] as int));
        k = k + 1;
    }
    sunsets.push(times[above_horizon_indices[n - 1]]);
    assert(sunset_positions(a).take(g.len() as int).push(n - 1) =~= sunset_positions(a));
    assert(sunrises@ =~= sunrise_positions(a).map_values(|p: int| times@[a[p] as int]));
    assert(sunsets@ =~= sunset_positions(a).map_values(|p: int| times@[a[p] as int]));
    SunriseSunsetDetails::Times { sunrises, sunsets }
}


/// The detailed and the simple reductions of a day agree: the detailed
/// answer has as many sunrises as sunsets, its first sunrise is taken at the
/// first sample above the horizon and its last sunset at the last one, which
/// are the simple answer's sunrise and sunset.
pub proof fn lemma_details_agree_with_simple(above: Seq<usize>)
    requires
        above.len() > 0,
    ensures
        sunrise_positions(above).len() == sunset_positions(above).len(),
        sunrise_positions(above)[0] == 0,
        sunset_positions(above).last() == above.len() - 1,
{
}

/// Periods of sunlight alternate with darkness: each sunrise comes no later
/// than its sunset, and between a sunset and the next sunrise at least one
/// sample has the sun below the horizon.
pub proof fn lemma_sunlight_periods_alternate(n_times: int, above: Seq<usize>)
    requires
        above.len() > 0,
        above.len() <= usize::MAX,
        valid_above(n_times, above),
    ensures
        forall|k: int|
            0 <= k < sunrise_positions(above).len() ==> {
                &&& 0 <= #[trigger] sunrise_positions(above)[k] <= sunset_positions(above)[k] < above.len()
                &&& above[sunrise_positions(above)[k]] <= above[sunset_positions(above)[k]]
            },
        forall|k: int|
            0 <= k < sunrise_positions(above).len() - 1 ==> above[sunset_positions(above)[k]] + 1
                < above[#[trigger] sunrise_positions(above)[k + 1]],
{
    let g = gaps(above);
    lemma_gaps_upto(above, above.len() - 1);
    assert forall|k: int| 0 <= k < sunrise_positions(above).len() implies {
        &&& 0 <= #[trigger] sunrise_positions(above)[k] <= sunset_positions(above)[k] < above.len()
        &&& above[sunrise_positions(above)[k]] <= above[sunset_positions(above)[k]]
    } by {
        if k > 0 {
            assert(sunrise_positions(above)[k] == g[k - 1] + 1);
            if k < g.len() {
                assert(sunset_positions(above)[k] == g[k]);
                assert(g[k - 1] < g[k]);
            } else {
                assert(sunset_positions(above)[k] == above.len() - 1);
            }
        } else {
            if k < g.len() {
                assert(sunset_positions(above)[k] == g[k]);
            }
        }
    }
    assert forall|k: int| 0 <= k < sunrise_positions(above).len() - 1 implies above[sunset_positions(above)[k]] + 1
        < above[#[trigger] sunrise_positions(above)[k + 1]] by {
        assert(sunset_positions(above)[k] == g[k]);
        assert(sunrise_positions(above)[k + 1] == g[k] + 1);
        assert(is_gap(above, g[k] as int));
    }
}


/// Number of sun position samples of a day taken `precision` times per hour,
/// both midnights included: `24 * precision + 1`. A precision of zero is an
/// invalid input.
pub fn samples_per_day(precision: usize) -> (res: Result<usize, TppssError>)
    requires
        24 * precision + 1 <= usize::MAX,
    ensures
        precision == 0 ==> (res matches Err(TppssError::InvalidInput(m)) && m@
            == "time precision must be greater than zero"@),
        precision > 0 ==> res == Ok::<usize, TppssError>((24 * precision + 1) as usize),
{
    if precision == 0 {
        return Err(TppssError::InvalidInput("time precision must be greater than zero".to_owned()));
    }
    Ok(24 * precision + 1)
}


proof fn lemma_gaps_upto_complete(above: Seq<usize>, n: int, i: int)
    requires
        0 <= i < n < above.len() <= usize::MAX,
        above[i + 1] > above[i] + 1,
    ensures
        exists|k: int| 0 <= k < gaps_upto(above, n).len() && gaps_upto(above, n)[k] == i,
    decreases n,
{
    let prev = gaps_upto(above, n - 1);
    let cur = gaps_upto(above, n);
    if i < n - 1 {
        lemma_gaps_upto_complete(above, n - 1, i);
        let k = choose|k: int| 0 <= k < prev.len() && prev[k] == i;
        assert(cur[k] == prev[k]);
    } else {
        assert(cur[prev.len() as int] == (n - 1) as usize);
    }
}

/// Every dip of the sun below the horizon is reported: wherever two
/// consecutive above-horizon samples are not adjacent sample indices (at
/// least one sample in between has the sun below the horizon), the first is
/// a sunset and the second is the next sunrise. Conversely every sunset but
/// the last is followed, at the next above-horizon sample, by the next
/// sunrise, with at least one sample below the horizon in between. The last
/// sunset is the last above-horizon sample.
pub proof fn lemma_every_dip_is_reported(n_times: int, above: Seq<usize>)
    requires
        above.len() > 0,
        above.len() <= usize::MAX,
        valid_above(n_times, above),
    ensures
        forall|i: int|
            #![trigger above[i]]
            0 <= i < above.len() - 1 && above[i + 1] > above[i] + 1 ==> exists|k: int|
                0 <= k < sunrise_positions(above).len() - 1 && #[trigger] sunset_positions(above)[k] == i
                    && sunrise_positions(above)[k + 1] == i + 1,
        forall|k: int|
            0 <= k < sunrise_positions(above).len() - 1 ==> {
                &&& #[trigger] sunrise_positions(above)[k + 1] == sunset_positions(above)[k] + 1
                &&& 0 <= sunset_positions(above)[k] < above.len() - 1
                &&& above[sunset_positions(above)[k] + 1] > above[sunset_positions(above)[k]] + 1
            },
        sunrise_positions(above).len() == sunset_positions(above).len(),
        sunrise_positions(above)[0] == 0,
        sunset_positions(above).last() == above.len() - 1,
{
    let g = gaps(above);
    lemma_gaps_upto(above, above.len() - 1);
    assert forall|i: int|
        #![trigger above[i]]
        0 <= i < above.len() - 1 && above[i + 1] > above[i] + 1 implies exists|k: int|
            0 <= k < sunrise_positions(above).len() - 1 && #[trigger] sunset_positions(above)[k] == i
                && sunrise_positions(above)[k + 1] == i + 1 by {
        lemma_gaps_upto_complete(above, above.len() - 1, i);
        let k = choose|k: int| 0 <= k < g.len() && g[k] == i;
        assert(sunset_positions(above)[k] == i);
        assert(sunrise_positions(above)[k + 1] == i + 1);
    }
    assert forall|k: int| 0 <= k < sunrise_positions(above).len() - 1 implies {
        &&& #[trigger] sunrise_positions(above)[k + 1] == sunset_positions(above)[k] + 1
        &&& 0 <= sunset_positions(above)[k] < above.len() - 1
        &&& above[sunset_positions(above)[k] + 1] > above[sunset_positions(above)[k]] + 1
    } by {
        assert(sunset_positions(above)[k] == g[k]);
        assert(sunrise_positions(above)[k + 1] == g[k] + 1);
        assert(is_gap(above, g[k] as int));
    }
}

} // verus!
