//! Structured textual weather narrative.
//!
//! Best-effort descriptive text over the same hourly series the reducer
//! takes, in a fixed section order: current conditions, temperature
//! summary, humidity, precipitation, short-term trend.  Unlike the
//! reducer, numeric fields that fail to decode are skipped or rendered as
//! placeholders here; the narrative never fails.

use vstd::prelude::*;

use crate::fixed::{
    find_char, fixed_ok, fmt_fixed1, fmt_fixed1_spec, fmt_fixed_int, fmt_fixed_int_spec,
    lemma_find_char_at, lemma_find_char_none, parse_fixed, parse_fixed_spec, MAX_FIXED,
};
use crate::models::{HourlyWeather, QWeatherResponse};

verus! {

/// Cap on the series length the narrative accepts; it keeps every running
/// sum within the machine integer range.
pub const MAX_READINGS: usize = 1_000_000_000;

/// How many leading readings the trend section covers by default.  A
/// load-bearing constant: downstream text consumers rely on it.
pub const TREND_SPAN: usize = 8;

/// The text of an optional field, or a placeholder when it is absent.
pub open spec fn opt_text(o: Option<String>, dflt: Seq<char>) -> Seq<char> {
    match o {
        Some(s) => s@,
        None => dflt,
    }
}

/// The fixed-point value of an optional decimal-text field.
pub open spec fn opt_fixed(o: Option<String>) -> Option<int> {
    match o {
        Some(s) => parse_fixed_spec(s@),
        None => None,
    }
}

/// Current-conditions section: the first reading only, every absent
/// optional field as the fixed placeholder "unknown", so the line count
/// is stable.
pub open spec fn current_section(first: HourlyWeather) -> Seq<char> {
    "=== Current Conditions ===\n"@ + "Condition: "@ + first.text@ + "\n"@ + "Temperature: "@
        + first.temp@ + "°C\n"@ + "Humidity: "@ + opt_text(first.humidity, "unknown"@) + "%\n"@
        + "Wind: "@ + opt_text(first.wind_dir, "unknown"@) + " ("@ + opt_text(
        first.wind_360,
        "unknown"@,
    ) + "°)\n"@ + "Wind scale: "@ + opt_text(first.wind_scale, "unknown"@) + "\n"@
        + "Wind speed: "@ + opt_text(first.wind_speed, "unknown"@) + " km/h\n"@
        + "Precipitation probability: "@ + opt_text(first.pop, "unknown"@) + "%\n"@
        + "Precipitation: "@ + opt_text(first.precip, "unknown"@) + " mm\n"@ + "Pressure: "@
        + opt_text(first.pressure, "unknown"@) + " hPa\n"@ + "Cloud cover: "@ + opt_text(
        first.cloud,
        "unknown"@,
    ) + "%\n\n"@
}

/// The decodable temperatures of the series, in order.
pub open spec fn parsed_temps(s: Seq<HourlyWeather>) -> Seq<int>
    decreases s.len(),
{
    if s.len() == 0 {
        Seq::empty()
    } else {
        parsed_temps(s.drop_last()) + (match parse_fixed_spec(s.last().temp@) {
            Some(v) => seq![v],
            None => Seq::empty(),
        })
    }
}

/// The decodable humidities of the series, in order.
pub open spec fn parsed_hums(s: Seq<HourlyWeather>) -> Seq<int>
    decreases s.len(),
{
    if s.len() == 0 {
        Seq::empty()
    } else {
        parsed_hums(s.drop_last()) + (match opt_fixed(s.last().humidity) {
            Some(v) => seq![v],
            None => Seq::empty(),
        })
    }
}

/// Sum of the decodable precipitation amounts.
pub open spec fn precip_total(s: Seq<HourlyWeather>) -> int
    decreases s.len(),
{
    if s.len() == 0 {
        0
    } else {
        precip_total(s.drop_last()) + (match opt_fixed(s.last().precip) {
            Some(v) => v,
            None => 0,
        })
    }
}

/// Largest decodable precipitation probability, folded from zero.
pub open spec fn pop_max(s: Seq<HourlyWeather>) -> int
    decreases s.len(),
{
    if s.len() == 0 {
        0
    } else {
        let p = pop_max(s.drop_last());
        match opt_fixed(s.last().pop) {
            Some(v) => if v > p {
                v
            } else {
                p
            },
            None => p,
        }
    }
}

pub open spec fn isum(t: Seq<int>) -> int
    decreases t.len(),
{
    if t.len() == 0 {
        0
    } else {
        isum(t.drop_last()) + t.last()
    }
}

/// Largest element of a non-empty integer sequence.
pub open spec fn imax(t: Seq<int>) -> int
    decreases t.len(),
{
    if t.len() <= 1 {
        t[0]
    } else {
        let p = imax(t.drop_last());
        if t.last() > p {
            t.last()
        } else {
            p
        }
    }
}

/// Smallest element of a non-empty integer sequence.
pub open spec fn imin(t: Seq<int>) -> int
    decreases t.len(),
{
    if t.len() <= 1 {
        t[0]
    } else {
        let p = imin(t.drop_last());
        if t.last() < p {
            t.last()
        } else {
            p
        }
    }
}

/// The extremes of a non-empty sequence bound its elements and its sum.
pub proof fn lemma_iseq_bounds(t: Seq<int>)
    requires
        t.len() >= 1,
    ensures
        imin(t) <= imax(t),
        t.contains(imax(t)),
        t.contains(imin(t)),
        forall|j: int| 0 <= j < t.len() ==> imin(t) <= #[trigger] t[j] <= imax(t),
        t.len() * imin(t) <= isum(t) <= t.len() * imax(t),
    decreases t.len(),
{
    let n = t.len() as int;
    if t.len() == 1 {
        assert(t.contains(imax(t))) by {
            assert(t[0] == imax(t));
        }
        assert(t.contains(imin(t))) by {
            assert(t[0] == imin(t));
        }
        assert(isum(t.drop_last()) == 0);
    } else {
        let p = t.drop_last();
        lemma_iseq_bounds(p);
        assert(forall|j: int| 0 <= j < p.len() ==> p[j] == #[trigger] t[j]);
        assert(t.contains(imax(t))) by {
            if t.last() > imax(p) {
                assert(t[n - 1] == imax(t));
            } else {
                let j = choose|j: int| 0 <= j < p.len() && p[j] == imax(p);
                assert(t[j] == imax(t));
            }
        }
        assert(t.contains(imin(t))) by {
            if t.last() < imin(p) {
                assert(t[n - 1] == imin(t));
            } else {
                let j = choose|j: int| 0 <= j < p.len() && p[j] == imin(p);
                assert(t[j] == imin(t));
            }
        }
        assert((n - 1) * imin(t) <= (n - 1) * imin(p)) by (nonlinear_arith)
            requires
                n >= 2,
                imin(t) <= imin(p),
        ;
        assert((n - 1) * imax(p) <= (n - 1) * imax(t)) by (nonlinear_arith)
            requires
                n >= 2,
                imax(p) <= imax(t),
        ;
        assert((n - 1) * imin(t) + imin(t) == n * imin(t)) by (nonlinear_arith);
        assert((n - 1) * imax(t) + imax(t) == n * imax(t)) by (nonlinear_arith);
    }
}

/// Temperature-summary section: extremes, floor mean and range over the
/// decodable temperatures only; absent when none decodes.
pub open spec fn stats_section(s: Seq<HourlyWeather>) -> Seq<char> {
    let t = parsed_temps(s);
    if t.len() == 0 {
        Seq::empty()
    } else {
        "=== Temperature Summary ===\n"@ + "High: "@ + fmt_fixed_int_spec(imax(t)) + "°C\n"@
            + "Low: "@ + fmt_fixed_int_spec(imin(t)) + "°C\n"@ + "Average: "@ + fmt_fixed1_spec(
            isum(t) / (t.len() as int),
        ) + "°C\n"@ + "Range: "@ + fmt_fixed_int_spec(imax(t) - imin(t)) + "°C\n\n"@
    }
}

/// Humidity section: floor mean of the decodable humidities; absent when
/// none decodes.
pub open spec fn humidity_section(s: Seq<HourlyWeather>) -> Seq<char> {
    let hu = parsed_hums(s);
    if hu.len() == 0 {
        Seq::empty()
    } else {
        "Average humidity: "@ + fmt_fixed_int_spec(isum(hu) / (hu.len() as int)) + "%\n"@
    }
}

/// Precipitation section: total amount and maximum probability; absent
/// unless one of them is positive.
pub open spec fn precip_section(s: Seq<HourlyWeather>) -> Seq<char> {
    if precip_total(s) > 0 || pop_max(s) > 0 {
        "\n=== Precipitation ===\n"@ + "Total precipitation: "@ + fmt_fixed1_spec(precip_total(s))
            + " mm\n"@ + "Max precipitation probability: "@ + fmt_fixed_int_spec(pop_max(s))
            + "%\n"@
    } else {
        Seq::empty()
    }
}

/// The hour part of a timestamp: the text between the first 'T' and the
/// next ':'; "--" when there is no 'T'.
pub open spec fn hour_of(ts: Seq<char>) -> Seq<char> {
    match find_char(ts, 'T') {
        Some(i) => {
            let rest = ts.skip(i + 1);
            match find_char(rest, ':') {
                Some(j) => rest.take(j),
                None => rest,
            }
        },
        None => "--"@,
    }
}

/// One trend line: hour, condition text and raw temperature text.
pub open spec fn trend_line(h: HourlyWeather) -> Seq<char> {
    hour_of(h.fx_time@) + ": "@ + h.text@ + " "@ + h.temp@ + "°C"@
}

/// Trend lines joined by single newlines.
pub open spec fn trend_lines(s: Seq<HourlyWeather>) -> Seq<char>
    decreases s.len(),
{
    if s.len() == 0 {
        Seq::empty()
    } else if s.len() == 1 {
        trend_line(s[0])
    } else {
        trend_lines(s.drop_last()) + "\n"@ + trend_line(s.last())
    }
}

/// Trend section: always present, covering at most the first `span`
/// readings.
pub open spec fn trend_section(s: Seq<HourlyWeather>, span: int) -> Seq<char> {
    "\n=== Next 8 Hours ===\n"@ + trend_lines(
        if s.len() <= span {
            s
        } else {
            s.take(span)
        },
    ) + "\n"@
}

/// The whole narrative with a chosen trend span: ordered concatenation of
/// the five sections.  On an empty series only the trend section remains,
/// with an empty body.
pub open spec fn description_span_spec(s: Seq<HourlyWeather>, span: int) -> Seq<char> {
    (if s.len() > 0 {
        current_section(s[0])
    } else {
        Seq::empty()
    }) + stats_section(s) + humidity_section(s) + precip_section(s) + trend_section(s, span)
}

/// The whole narrative with the default trend span.
pub open spec fn description_spec(s: Seq<HourlyWeather>) -> Seq<char> {
    description_span_spec(s, TREND_SPAN as int)
}

/// The text of an optional field, or the given placeholder.
fn opt_or<'a>(o: &'a Option<String>, dflt: &'a str) -> (r: &'a str)
    ensures
        r@ == opt_text(*o, dflt@),
{
    match o {
        Some(s) => s.as_str(),
        None => dflt,
    }
}

fn current_section_str(first: &HourlyWeather) -> (s: String)
    ensures
        s@ == current_section(*first),
{
    let mut s = String::from_str("=== Current Conditions ===\n");
    s.append("Condition: ");
    s.append(first.text.as_str());
    s.append("\n");
    s.append("Temperature: ");
    s.append(first.temp.as_str());
    s.append("°C\n");
    s.append("Humidity: ");
    s.append(opt_or(&first.humidity, "unknown"));
    s.append("%\n");
    s.append("Wind: ");
    s.append(opt_or(&first.wind_dir, "unknown"));
    s.append(" (");
    s.append(opt_or(&first.wind_360, "unknown"));
    s.append("°)\n");
    s.append("Wind scale: ");
    s.append(opt_or(&first.wind_scale, "unknown"));
    s.append("\n");
    s.append("Wind speed: ");
    s.append(opt_or(&first.wind_speed, "unknown"));
    s.append(" km/h\n");
    s.append("Precipitation probability: ");
    s.append(opt_or(&first.pop, "unknown"));
    s.append("%\n");
    s.append("Precipitation: ");
    s.append(opt_or(&first.precip, "unknown"));
    s.append(" mm\n");
    s.append("Pressure: ");
    s.append(opt_or(&first.pressure, "unknown"));
    s.append(" hPa\n");
    s.append("Cloud cover: ");
    s.append(opt_or(&first.cloud, "unknown"));
    s.append("%\n\n");
    proof {
        assert(s@ =~= current_section(*first));
    }
    s
}

/// View of a vector of fixed-point values as mathematical integers.
pub open spec fn ints(v: Seq<i64>) -> Seq<int> {
    v.map_values(|x: i64| x as int)
}

fn collect_temps(hourly: &Vec<HourlyWeather>) -> (tv: Vec<i64>)
    ensures
        ints(tv@) == parsed_temps(hourly@),
        forall|j: int| 0 <= j < tv@.len() ==> fixed_ok(#[trigger] tv@[j] as int),
{
    let h = hourly;
    let n = h.len();
    let mut tv: Vec<i64> = Vec::new();
    let mut i: usize = 0;
    proof {
        assert(ints(tv@) =~= parsed_temps(h@.take(0)));
    }
    while i < n
        invariant
            0 <= i <= n == h@.len(),
            ints(tv@) == parsed_temps(h@.take(i as int)),
            forall|j: int| 0 <= j < tv@.len() ==> fixed_ok(#[trigger] tv@[j] as int),
        decreases n - i,
    {
        let ghost pre = h@.take(i as int);
        proof {
            let post = h@.take(i as int + 1);
            assert(post.drop_last() =~= pre);
            assert(post.last() == h@[i as int]);
        }
        match parse_fixed(h[i].temp.as_str()) {
            Some(t) => {
                tv.push(t);
                proof {
                    assert(ints(tv@) =~= parsed_temps(h@.take(i as int + 1)));
                }
            },
            None => {
                proof {
                    assert(ints(tv@) =~= parsed_temps(h@.take(i as int + 1)));
                }
            },
        }
        i = i + 1;
    }
    proof {
        assert(h@.take(n as int) =~= h@);
    }
    tv
}

fn collect_hums(hourly: &Vec<HourlyWeather>) -> (hv: Vec<i64>)
    ensures
        ints(hv@) == parsed_hums(hourly@),
        forall|j: int| 0 <= j < hv@.len() ==> fixed_ok(#[trigger] hv@[j] as int),
{
    let h = hourly;
    let n = h.len();
    let mut hv: Vec<i64> = Vec::new();
    let mut i: usize = 0;
    proof {
        assert(ints(hv@) =~= parsed_hums(h@.take(0)));
    }
    while i < n
        invariant
            0 <= i <= n == h@.len(),
            ints(hv@) == parsed_hums(h@.take(i as int)),
            forall|j: int| 0 <= j < hv@.len() ==> fixed_ok(#[trigger] hv@[j] as int),
        decreases n - i,
    {
        let ghost pre = h@.take(i as int);
        proof {
            let post = h@.take(i as int + 1);
            assert(post.drop_last() =~= pre);
            assert(post.last() == h@[i as int]);
        }
        let parsed = match &h[i].humidity {
            Some(text) => parse_fixed(text.as_str()),
            None => None,
        };
        match parsed {
            Some(t) => {
                hv.push(t);
                proof {
                    assert(ints(hv@) =~= parsed_hums(h@.take(i as int + 1)));
                }
            },
            None => {
                proof {
                    assert(ints(hv@) =~= parsed_hums(h@.take(i as int + 1)));
                }
            },
        }
        i = i + 1;
    }
    proof {
        assert(h@.take(n as int) =~= h@);
    }
    hv
}

/// Extremes and floor mean of a non-empty vector of fixed-point values.
fn reduce_ints(tv: &Vec<i64>) -> (r: (i64, i64, i64))
    requires
        tv@.len() >= 1,
        forall|j: int| 0 <= j < tv@.len() ==> fixed_ok(#[trigger] tv@[j] as int),
    ensures
        r.0 as int == imax(ints(tv@)),
        r.1 as int == imin(ints(tv@)),
        r.2 as int == isum(ints(tv@)) / (tv@.len() as int),
        r.1 <= r.2 <= r.0,
        fixed_ok(r.0 as int) && fixed_ok(r.1 as int) && fixed_ok(r.2 as int),
{
    let n = tv.len();
    let mut mx = tv[0];
    let mut mn = tv[0];
    let mut sum: i128 = 0;
    let mut i: usize = 0;
    proof {
        assert(ints(tv@).take(1).drop_last() =~= Seq::<int>::empty());
    }
    while i < n
        invariant
            0 <= i <= n == tv@.len(),
            forall|j: int| 0 <= j < tv@.len() ==> fixed_ok(#[trigger] tv@[j] as int),
            i > 0 ==> mx as int == imax(ints(tv@).take(i as int)),
            i > 0 ==> mn as int == imin(ints(tv@).take(i as int)),
            i == 0 ==> mx == tv@[0] && mn == tv@[0],
            sum as int == isum(ints(tv@).take(i as int)),
            i > 0 ==> fixed_ok(mx as int) && fixed_ok(mn as int),
            -(i as int) * (MAX_FIXED as int) <= sum as int <= (i as int) * (MAX_FIXED as int),
        decreases n - i,
    {
        let ghost pre = ints(tv@).take(i as int);
        proof {
            let post = ints(tv@).take(i as int + 1);
            assert(post.drop_last() =~= pre);
            assert(post.last() == ints(tv@)[i as int]);
            assert(ints(tv@)[i as int] == tv@[i as int] as int);
        }
        let t = tv[i];
        if i == 0 {
            mx = t;
            mn = t;
        } else {
            if t > mx {
                mx = t;
            }
            if t < mn {
                mn = t;
            }
        }
        sum = sum + (t as i128);
        i = i + 1;
    }
    proof {
        assert(ints(tv@).take(n as int) =~= ints(tv@));
        lemma_iseq_bounds(ints(tv@));
    }
    let mean = crate::analyse::mean_floor(sum, n, mn, mx);
    (mx, mn, mean)
}

fn stats_section_str(hourly: &Vec<HourlyWeather>) -> (s: String)
    ensures
        s@ == stats_section(hourly@),
{
    let tv = collect_temps(hourly);
    let ghost t = parsed_temps(hourly@);
    if tv.len() == 0 {
        proof {
            assert(t.len() == 0);
        }
        let s = String::new();
        proof {
            assert(s@ =~= stats_section(hourly@));
        }
        return s;
    }
    let (mx, mn, mean) = reduce_ints(&tv);
    let mut s = String::from_str("=== Temperature Summary ===\n");
    s.append("High: ");
    let hx = fmt_fixed_int(mx);
    s.append(hx.as_str());
    s.append("°C\n");
    s.append("Low: ");
    let lw = fmt_fixed_int(mn);
    s.append(lw.as_str());
    s.append("°C\n");
    s.append("Average: ");
    let av = fmt_fixed1(mean);
    s.append(av.as_str());
    s.append("°C\n");
    s.append("Range: ");
    let rg = fmt_fixed_int(mx - mn);
    s.append(rg.as_str());
    s.append("°C\n\n");
    proof {
        assert(s@ =~= stats_section(hourly@));
    }
    s
}

fn humidity_section_str(hourly: &Vec<HourlyWeather>) -> (s: String)
    ensures
        s@ == humidity_section(hourly@),
{
    let hv = collect_hums(hourly);
    let ghost hu = parsed_hums(hourly@);
    if hv.len() == 0 {
        proof {
            assert(hu.len() == 0);
        }
        let s = String::new();
        proof {
            assert(s@ =~= humidity_section(hourly@));
        }
        return s;
    }
    let (_, _, mean) = reduce_ints(&hv);
    let mut s = String::from_str("Average humidity: ");
    let av = fmt_fixed_int(mean);
    s.append(av.as_str());
    s.append("%\n");
    proof {
        assert(s@ =~= humidity_section(hourly@));
    }
    s
}

fn precip_section_str(hourly: &Vec<HourlyWeather>) -> (s: String)
    requires
        hourly@.len() <= MAX_READINGS,
    ensures
        s@ == precip_section(hourly@),
{
    let h = hourly;
    let n = h.len();
    let mut total: i64 = 0;
    let mut pm: i64 = 0;
    let mut i: usize = 0;
    while i < n
        invariant
            0 <= i <= n == h@.len(),
            n <= MAX_READINGS,
            total as int == precip_total(h@.take(i as int)),
            pm as int == pop_max(h@.take(i as int)),
            -(i as int) * (MAX_FIXED as int) <= total as int <= (i as int) * (MAX_FIXED as int),
            0 <= pm as int <= MAX_FIXED as int,
        decreases n - i,
    {
        let ghost pre = h@.take(i as int);
        proof {
            let post = h@.take(i as int + 1);
            assert(post.drop_last() =~= pre);
            assert(post.last() == h@[i as int]);
        }
        let pv = match &h[i].precip {
            Some(text) => parse_fixed(text.as_str()),
            None => None,
        };
        if let Some(v) = pv {
            total = total + v;
        }
        let gv = match &h[i].pop {
            Some(text) => parse_fixed(text.as_str()),
            None => None,
        };
        if let Some(v) = gv {
            if v > pm {
                pm = v;
            }
        }
        i = i + 1;
    }
    proof {
        assert(h@.take(n as int) =~= h@);
    }
    if total > 0 || pm > 0 {
        let mut s = String::from_str("\n=== Precipitation ===\n");
        s.append("Total precipitation: ");
        let tt = fmt_fixed1(total);
        s.append(tt.as_str());
        s.append(" mm\n");
        s.append("Max precipitation probability: ");
        let pp = fmt_fixed_int(pm);
        s.append(pp.as_str());
        s.append("%\n");
        proof {
            assert(s@ =~= precip_section(hourly@));
        }
        s
    } else {
        let s = String::new();
        proof {
            assert(s@ =~= precip_section(hourly@));
        }
        s
    }
}

/// The hour text of a timestamp, `"--"` when no 'T' separator is found.
fn hour_str(ts: &str) -> (r: String)
    ensures
        r@ == hour_of(ts@),
{
    let len = ts.unicode_len();
    match crate::fixed::find_char_from(ts, 0, 'T') {
        None => {
            proof {
                lemma_find_char_none(ts@, 'T');
            }
            String::from_str("--")
        },
        Some(i) => {
            proof {
                lemma_find_char_at(ts@, 'T', i as int);
            }
            let ghost rest = ts@.skip(i as int + 1);
            proof {
                assert(forall|k: int|
                    0 <= k < rest.len() ==> #[trigger] rest[k] == ts@[k + i + 1]);
            }
            match crate::fixed::find_char_from(ts, i + 1, ':') {
                Some(j) => {
                    proof {
                        assert(rest[j - (i + 1)] == ':');
                        assert(forall|k: int| 0 <= k < j - (i + 1) ==> #[trigger] rest[k] != ':');
                        lemma_find_char_at(rest, ':', j - (i + 1));
                        assert(rest.take(j - (i + 1)) =~= ts@.subrange(i as int + 1, j as int));
                    }
                    ts.substring_char(i + 1, j).to_owned()
                },
                None => {
                    proof {
                        assert(forall|k: int| 0 <= k < rest.len() ==> #[trigger] rest[k] != ':');
                        lemma_find_char_none(rest, ':');
                        assert(rest =~= ts@.subrange(i as int + 1, len as int));
                    }
                    ts.substring_char(i + 1, len).to_owned()
                },
            }
        },
    }
}

fn trend_section_str(hourly: &Vec<HourlyWeather>, span: usize) -> (s: String)
    ensures
        s@ == trend_section(hourly@, span as int),
{
    let h = hourly;
    let m = if h.len() < span {
        h.len()
    } else {
        span
    };
    let ghost shown = if h@.len() <= span as int {
        h@
    } else {
        h@.take(span as int)
    };
    proof {
        assert(shown =~= h@.take(m as int));
    }
    let mut s = String::from_str("\n=== Next 8 Hours ===\n");
    let mut k: usize = 0;
    while k < m
        invariant
            0 <= k <= m <= h@.len(),
            shown == h@.take(m as int),
            s@ == "\n=== Next 8 Hours ===\n"@ + trend_lines(h@.take(k as int)),
        decreases m - k,
    {
        let ghost pre = h@.take(k as int);
        proof {
            let post = h@.take(k as int + 1);
            assert(post.drop_last() =~= pre);
            assert(post.last() == h@[k as int]);
            assert(post[0] == h@[0]);
        }
        if k > 0 {
            s.append("\n");
        }
        let hr = hour_str(h[k].fx_time.as_str());
        s.append(hr.as_str());
        s.append(": ");
        s.append(h[k].text.as_str());
        s.append(" ");
        s.append(h[k].temp.as_str());
        s.append("°C");
        proof {
            if k == 0 {
                assert(s@ =~= "\n=== Next 8 Hours ===\n"@ + trend_lines(h@.take(1)));
            } else {
                assert(s@ =~= "\n=== Next 8 Hours ===\n"@ + trend_lines(h@.take(k as int + 1)));
            }
        }
        k = k + 1;
    }
    s.append("\n");
    proof {
        assert(s@ =~= trend_section(hourly@, span as int));
    }
    s
}

/// Render the narrative with a chosen trend span.
///
/// Tolerates empty input and undecodable fields; the result is exactly the
/// section structure of [`description_span_spec`].
pub fn weather_to_description_span(data: &QWeatherResponse, span: usize) -> (desc: String)
    requires
        data.hourly@.len() <= MAX_READINGS,
    ensures
        desc@ == description_span_spec(data.hourly@, span as int),
{
    let mut desc = if data.hourly.len() > 0 {
        current_section_str(&data.hourly[0])
    } else {
        String::new()
    };
    let stats = stats_section_str(&data.hourly);
    desc.append(stats.as_str());
    let hums = humidity_section_str(&data.hourly);
    desc.append(hums.as_str());
    let precip = precip_section_str(&data.hourly);
    desc.append(precip.as_str());
    let trend = trend_section_str(&data.hourly, span);
    desc.append(trend.as_str());
    proof {
        assert(desc@ =~= description_span_spec(data.hourly@, span as int));
    }
    desc
}

/// Render the narrative with the default trend span.
pub fn weather_to_description(data: &QWeatherResponse) -> (desc: String)
    requires
        data.hourly@.len() <= MAX_READINGS,
    ensures
        desc@ == description_spec(data.hourly@),
{
    weather_to_description_span(data, TREND_SPAN)
}

} // verus!
