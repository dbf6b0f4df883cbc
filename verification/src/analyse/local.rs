//! Per-city daily temperature history and the day-over-day delta.
//!
//! The store is logically a set of records keyed by `(city, date)` --
//! at most one record per key, insertion order kept -- and physically a
//! header line plus one comma-separated row per record.  Encoding and
//! decoding are verified against each other: reloading a rendered store
//! gives the same records back.

use vstd::prelude::*;

use crate::dates::{date_str_spec, fmt_date, parse_date, parse_date_spec, prev_day, prev_day_spec};
use crate::errors::WeatherError;
use crate::fixed::{fixed_ok, fmt_fixed2_spec, parse_fixed_spec};

verus! {

/// One persisted row: daily statistics for one city and one date, in
/// hundredths of a degree.
#[derive(Debug)]
pub struct TemperatureRecord {
    /// Calendar date in the `"YYYY-MM-DD"` form.
    pub date: String,
    pub temp_mean: i64,
    pub temp_max: i64,
    pub temp_min: i64,
    pub city: String,
}

/// Mathematical image of a record.
#[verifier::ext_equal]
pub struct TemperatureRecordV {
    pub date: Seq<char>,
    pub temp_mean: int,
    pub temp_max: int,
    pub temp_min: int,
    pub city: Seq<char>,
}

impl View for TemperatureRecord {
    type V = TemperatureRecordV;

    open spec fn view(&self) -> TemperatureRecordV {
        TemperatureRecordV {
            date: self.date@,
            temp_mean: self.temp_mean as int,
            temp_max: self.temp_max as int,
            temp_min: self.temp_min as int,
            city: self.city@,
        }
    }
}

/// Text that can sit in a row field: no separator, no line break.
pub open spec fn text_ok(s: Seq<char>) -> bool {
    forall|i: int|
        0 <= i < s.len() ==> #[trigger] s[i] != ',' && s[i] != '\n' && s[i] != '\r'
}

/// A record the store can hold: in-range values and field-safe text.
pub open spec fn rec_wf(r: TemperatureRecordV) -> bool {
    fixed_ok(r.temp_mean) && fixed_ok(r.temp_max) && fixed_ok(r.temp_min) && text_ok(r.date)
        && text_ok(r.city)
}

/// Whether a record carries the given identity key.
pub open spec fn key_is(r: TemperatureRecordV, city: Seq<char>, date: Seq<char>) -> bool {
    r.city == city && r.date == date
}

pub open spec fn same_key(a: TemperatureRecordV, b: TemperatureRecordV) -> bool {
    a.city == b.city && a.date == b.date
}

/// Whether some record in `s` carries the key.
pub open spec fn has_key(s: Seq<TemperatureRecordV>, city: Seq<char>, date: Seq<char>) -> bool {
    exists|i: int| 0 <= i < s.len() && key_is(#[trigger] s[i], city, date)
}

/// How many records in `s` carry the key.
pub open spec fn key_count(s: Seq<TemperatureRecordV>, city: Seq<char>, date: Seq<char>) -> nat
    decreases s.len(),
{
    if s.len() == 0 {
        0
    } else {
        key_count(s.drop_last(), city, date) + if key_is(s.last(), city, date) {
            1nat
        } else {
            0nat
        }
    }
}

/// The first record in `s` with the key, if any.
pub open spec fn find_rec(
    s: Seq<TemperatureRecordV>,
    city: Seq<char>,
    date: Seq<char>,
) -> Option<TemperatureRecordV>
    decreases s.len(),
{
    if s.len() == 0 {
        None
    } else if key_is(s[0], city, date) {
        Some(s[0])
    } else {
        find_rec(s.skip(1), city, date)
    }
}

/// Store invariant: every record is well formed and no key repeats.
pub open spec fn store_wf(s: Seq<TemperatureRecordV>) -> bool {
    (forall|i: int| 0 <= i < s.len() ==> rec_wf(#[trigger] s[i])) && (forall|i: int, j: int|
        0 <= i < j < s.len() ==> !same_key(#[trigger] s[i], #[trigger] s[j]))
}

/// Idempotent insertion: append the record only when its key is new.
pub open spec fn spec_insert(
    s: Seq<TemperatureRecordV>,
    r: TemperatureRecordV,
) -> Seq<TemperatureRecordV> {
    if has_key(s, r.city, r.date) {
        s
    } else {
        s.push(r)
    }
}

impl TemperatureRecord {
    /// A record the store can hold.
    pub open spec fn wf(&self) -> bool {
        rec_wf(self@)
    }

    /// A field-by-field copy with a known relation to the original.
    pub fn duplicate(&self) -> (r: TemperatureRecord)
        ensures
            r@ == self@,
    {
        TemperatureRecord {
            date: self.date.clone(),
            temp_mean: self.temp_mean,
            temp_max: self.temp_max,
            temp_min: self.temp_min,
            city: self.city.clone(),
        }
    }
}

/// The in-memory history: an ordered record sequence, deduplicated by
/// `(city, date)`.
#[derive(Debug)]
pub struct HistoryStore {
    pub records: Vec<TemperatureRecord>,
}

impl View for HistoryStore {
    type V = Seq<TemperatureRecordV>;

    open spec fn view(&self) -> Seq<TemperatureRecordV> {
        self.records@.map_values(|r: TemperatureRecord| r@)
    }
}

impl HistoryStore {
    pub open spec fn wf(&self) -> bool {
        store_wf(self@)
    }

    /// The empty store.
    pub fn new() -> (s: HistoryStore)
        ensures
            s@ == Seq::<TemperatureRecordV>::empty(),
            s.wf(),
    {
        let s = HistoryStore { records: Vec::new() };
        proof {
            assert(s@ =~= Seq::<TemperatureRecordV>::empty());
        }
        s
    }

    /// Number of records held.
    pub fn len(&self) -> (n: usize)
        ensures
            n == self@.len(),
    {
        self.records.len()
    }

    /// The first record for the key: a linear scan filtered by city,
    /// matching the exact date string.
    pub fn find(&self, city: &str, date: &str) -> (r: Option<&TemperatureRecord>)
        ensures
            match r {
                Some(rec) => find_rec(self@, city@, date@) == Some(rec@),
                None => find_rec(self@, city@, date@) is None,
            },
    {
        let city_owned = city.to_owned();
        let date_owned = date.to_owned();
        let n = self.records.len();
        let mut i: usize = 0;
        while i < n
            invariant
                0 <= i <= n == self@.len(),
                city_owned@ == city@,
                date_owned@ == date@,
                forall|j: int| 0 <= j < i ==> !key_is(#[trigger] self@[j], city@, date@),
            decreases n - i,
        {
            let rec = &self.records[i];
            if rec.city.eq(&city_owned) && rec.date.eq(&date_owned) {
                proof {
                    lemma_find_rec_at(self@, city@, date@, i as int);
                }
                return Some(rec);
            }
            i = i + 1;
        }
        proof {
            lemma_find_rec_none(self@, city@, date@);
        }
        None
    }

    /// Insert the record unless its key is already present; report whether
    /// an insertion happened.  A repeated key is a no-op, not an overwrite.
    pub fn insert_if_absent(&mut self, record: TemperatureRecord) -> (inserted: bool)
        requires
            old(self).wf(),
            record.wf(),
        ensures
            final(self)@ == spec_insert(old(self)@, record@),
            inserted == !has_key(old(self)@, record@.city, record@.date),
            final(self).wf(),
    {
        let n = self.records.len();
        let mut i: usize = 0;
        while i < n
            invariant
                0 <= i <= n == self@.len(),
                self@ == old(self)@,
                self.records@ == old(self).records@,
                store_wf(old(self)@),
                rec_wf(record@),
                forall|j: int| 0 <= j < i ==> !key_is(#[trigger] self@[j], record@.city, record@.date),
            decreases n - i,
        {
            let rec = &self.records[i];
            if rec.city.eq(&record.city) && rec.date.eq(&record.date) {
                proof {
                    assert(key_is(self@[i as int], record@.city, record@.date));
                }
                return false;
            }
            i = i + 1;
        }
        proof {
            if has_key(self@, record@.city, record@.date) {
                let j = choose|j: int|
                    0 <= j < self@.len() && key_is(#[trigger] self@[j], record@.city, record@.date);
                assert(!key_is(self@[j], record@.city, record@.date));
            }
        }
        let ghost pre = self@;
        self.records.push(record);
        proof {
            assert(self@ =~= pre.push(record@));
            assert(self.wf()) by {
                assert(forall|j: int| 0 <= j < pre.len() ==> self@[j] == #[trigger] pre[j]);
            }
        }
        true
    }
}

proof fn lemma_find_rec_at(s: Seq<TemperatureRecordV>, city: Seq<char>, date: Seq<char>, i: int)
    requires
        0 <= i < s.len(),
        key_is(s[i], city, date),
        forall|j: int| 0 <= j < i ==> !key_is(#[trigger] s[j], city, date),
    ensures
        find_rec(s, city, date) == Some(s[i]),
    decreases i,
{
    if i == 0 {
    } else {
        assert(s.skip(1)[i - 1] == s[i]);
        assert(forall|j: int| 0 <= j < i - 1 ==> #[trigger] s.skip(1)[j] == s[j + 1]);
        lemma_find_rec_at(s.skip(1), city, date, i - 1);
    }
}

proof fn lemma_find_rec_none(s: Seq<TemperatureRecordV>, city: Seq<char>, date: Seq<char>)
    requires
        forall|j: int| 0 <= j < s.len() ==> !key_is(#[trigger] s[j], city, date),
    ensures
        find_rec(s, city, date) is None,
    decreases s.len(),
{
    if s.len() > 0 {
        assert(forall|j: int| 0 <= j < s.len() - 1 ==> #[trigger] s.skip(1)[j] == s[j + 1]);
        lemma_find_rec_none(s.skip(1), city, date);
    }
}

/// A found record carries the key and sits in the store.
pub proof fn lemma_find_rec_props(s: Seq<TemperatureRecordV>, city: Seq<char>, date: Seq<char>)
    ensures
        find_rec(s, city, date) is Some <==> has_key(s, city, date),
        find_rec(s, city, date) matches Some(r) ==> key_is(r, city, date) && exists|i: int|
            0 <= i < s.len() && s[i] == r,
    decreases s.len(),
{
    if s.len() == 0 {
    } else if key_is(s[0], city, date) {
        assert(has_key(s, city, date)) by {
            assert(key_is(s[0], city, date));
        }
    } else {
        lemma_find_rec_props(s.skip(1), city, date);
        assert(forall|j: int| 0 <= j < s.len() - 1 ==> #[trigger] s.skip(1)[j] == s[j + 1]);
        if has_key(s.skip(1), city, date) {
            let i = choose|i: int|
                0 <= i < s.skip(1).len() && key_is(#[trigger] s.skip(1)[i], city, date);
            assert(key_is(s[i + 1], city, date));
        }
        if has_key(s, city, date) {
            let i = choose|i: int| 0 <= i < s.len() && key_is(#[trigger] s[i], city, date);
            assert(i >= 1);
            assert(key_is(s.skip(1)[i - 1], city, date));
            assert(has_key(s.skip(1), city, date));
        }
        if find_rec(s, city, date) is Some {
            let r = find_rec(s, city, date)->Some_0;
            let i = choose|i: int| 0 <= i < s.skip(1).len() && #[trigger] s.skip(1)[i] == r;
            assert(s[i + 1] == r);
        }
    }
}

/// In a well-formed store each key occurs at most once.
proof fn lemma_wf_key_count(s: Seq<TemperatureRecordV>, city: Seq<char>, date: Seq<char>)
    requires
        forall|i: int, j: int| 0 <= i < j < s.len() ==> !same_key(#[trigger] s[i], #[trigger] s[j]),
    ensures
        key_count(s, city, date) <= 1,
        key_count(s, city, date) >= 1 <==> has_key(s, city, date),
    decreases s.len(),
{
    if s.len() == 0 {
    } else {
        let p = s.drop_last();
        assert(forall|j: int| 0 <= j < p.len() ==> p[j] == #[trigger] s[j]);
        lemma_wf_key_count(p, city, date);
        if key_is(s.last(), city, date) {
            if has_key(p, city, date) {
                let i = choose|i: int| 0 <= i < p.len() && key_is(#[trigger] p[i], city, date);
                assert(same_key(s[i], s[s.len() - 1]));
                assert(false);
            }
            assert(has_key(s, city, date)) by {
                assert(key_is(s[s.len() - 1], city, date));
            }
        } else {
            if has_key(s, city, date) {
                let i = choose|i: int| 0 <= i < s.len() && key_is(#[trigger] s[i], city, date);
                assert(i < s.len() - 1);
                assert(key_is(p[i], city, date));
                assert(has_key(p, city, date));
            } else {
                if has_key(p, city, date) {
                    let i = choose|i: int| 0 <= i < p.len() && key_is(#[trigger] p[i], city, date);
                    assert(key_is(s[i], city, date));
                }
            }
        }
    }
}

/// Inserting a key twice is the same as inserting it once: the second
/// attempt finds the key present, changes nothing, and a well-formed store
/// is left with exactly one record for the key.
pub proof fn lemma_insert_idempotent(s: Seq<TemperatureRecordV>, r: TemperatureRecordV)
    ensures
        has_key(spec_insert(s, r), r.city, r.date),
        spec_insert(spec_insert(s, r), r) == spec_insert(s, r),
        store_wf(s) ==> key_count(spec_insert(s, r), r.city, r.date) == 1,
{
    let s1 = spec_insert(s, r);
    if has_key(s, r.city, r.date) {
        assert(s1 == s);
    } else {
        assert(key_is(s1[s.len() as int], r.city, r.date));
        assert(has_key(s1, r.city, r.date));
    }
    if store_wf(s) {
        lemma_wf_key_count(s, r.city, r.date);
        if has_key(s, r.city, r.date) {
        } else {
            assert(s1.drop_last() =~= s);
            assert(s1.last() == r);
            assert(key_count(s1, r.city, r.date) == key_count(s, r.city, r.date) + 1);
            assert(key_count(s, r.city, r.date) == 0) by {
                if key_count(s, r.city, r.date) >= 1 {
                    assert(has_key(s, r.city, r.date));
                }
            }
        }
    }
}

/// The header line of the persisted text form.
pub open spec fn header_row() -> Seq<char> {
    "date,temp_mean,temp_max,temp_min,city\n"@
}

/// One row without its terminating newline: the five fields, comma
/// separated, temperatures in the canonical two-fraction-digit form.
pub open spec fn row_core(r: TemperatureRecordV) -> Seq<char> {
    r.date + ","@ + fmt_fixed2_spec(r.temp_mean) + ","@ + fmt_fixed2_spec(r.temp_max) + ","@
        + fmt_fixed2_spec(r.temp_min) + ","@ + r.city
}

pub open spec fn render_row(r: TemperatureRecordV) -> Seq<char> {
    row_core(r) + "\n"@
}

pub open spec fn render_rows(s: Seq<TemperatureRecordV>) -> Seq<char>
    decreases s.len(),
{
    if s.len() == 0 {
        Seq::empty()
    } else {
        render_row(s[0]) + render_rows(s.skip(1))
    }
}

/// The full persisted text: header line, then one row per record in
/// insertion order.
pub open spec fn render_store(s: Seq<TemperatureRecordV>) -> Seq<char> {
    header_row() + render_rows(s)
}

/// Grammar of one row (without its newline): exactly four commas, the
/// three middle fields fixed-point decimals, no stray carriage returns.
pub open spec fn parse_row(line: Seq<char>) -> Option<TemperatureRecordV> {
    match crate::fixed::find_char(line, ',') {
        None => None,
        Some(i0) => {
            let date = line.take(i0);
            let r1 = line.skip(i0 + 1);
            match crate::fixed::find_char(r1, ',') {
                None => None,
                Some(i1) => {
                    let f1 = r1.take(i1);
                    let r2 = r1.skip(i1 + 1);
                    match crate::fixed::find_char(r2, ',') {
                        None => None,
                        Some(i2) => {
                            let f2 = r2.take(i2);
                            let r3 = r2.skip(i2 + 1);
                            match crate::fixed::find_char(r3, ',') {
                                None => None,
                                Some(i3) => {
                                    let f3 = r3.take(i3);
                                    let city = r3.skip(i3 + 1);
                                    if crate::fixed::find_char(city, ',') is None
                                        && crate::fixed::find_char(date, '\r') is None
                                        && crate::fixed::find_char(city, '\r') is None
                                        && parse_fixed_spec(f1) is Some && parse_fixed_spec(f2)
                                        is Some && parse_fixed_spec(f3) is Some {
                                        Some(
                                            TemperatureRecordV {
                                                date,
                                                temp_mean: parse_fixed_spec(f1)->Some_0,
                                                temp_max: parse_fixed_spec(f2)->Some_0,
                                                temp_min: parse_fixed_spec(f3)->Some_0,
                                                city,
                                            },
                                        )
                                    } else {
                                        None
                                    }
                                },
                            }
                        },
                    }
                },
            }
        },
    }
}

/// Grammar of the text after the header: newline-terminated rows, all of
/// which parse.
pub open spec fn parse_rows(s: Seq<char>) -> Option<Seq<TemperatureRecordV>>
    decreases s.len(),
{
    if s.len() == 0 {
        Some(Seq::empty())
    } else {
        match crate::fixed::find_char(s, '\n') {
            None => None,
            Some(i) => if 0 <= i < s.len() {
                match parse_row(s.take(i)) {
                    None => None,
                    Some(r) => match parse_rows(s.skip(i + 1)) {
                        None => None,
                        Some(rest) => Some(seq![r] + rest),
                    },
                }
            } else {
                None
            },
        }
    }
}

pub open spec fn no_dup_keys(s: Seq<TemperatureRecordV>) -> bool {
    forall|i: int, j: int| 0 <= i < j < s.len() ==> !same_key(#[trigger] s[i], #[trigger] s[j])
}

/// Grammar of the whole persisted text.  Empty text is an empty store (a
/// store file is created lazily); otherwise the header must be present,
/// every row must parse, and a repeated key is corruption.
pub open spec fn parse_store(s: Seq<char>) -> Option<Seq<TemperatureRecordV>> {
    if s.len() == 0 {
        Some(Seq::empty())
    } else if s.len() >= header_row().len() && s.take(header_row().len() as int) == header_row() {
        match parse_rows(s.skip(header_row().len() as int)) {
            None => None,
            Some(rows) => if no_dup_keys(rows) {
                Some(rows)
            } else {
                None
            },
        }
    } else {
        None
    }
}

/// A row parsed from a line without line breaks is well formed.
proof fn lemma_parse_row_wf(line: Seq<char>)
    requires
        forall|k: int| 0 <= k < line.len() ==> #[trigger] line[k] != '\n',
    ensures
        parse_row(line) is Some ==> rec_wf(parse_row(line)->Some_0),
{
    if parse_row(line) is Some {
        let r = parse_row(line)->Some_0;
        crate::fixed::lemma_find_char_props(line, ',');
        let i0 = crate::fixed::find_char(line, ',')->Some_0;
        let date = line.take(i0);
        let r1 = line.skip(i0 + 1);
        crate::fixed::lemma_find_char_props(r1, ',');
        let i1 = crate::fixed::find_char(r1, ',')->Some_0;
        let f1 = r1.take(i1);
        let r2 = r1.skip(i1 + 1);
        crate::fixed::lemma_find_char_props(r2, ',');
        let i2 = crate::fixed::find_char(r2, ',')->Some_0;
        let f2 = r2.take(i2);
        let r3 = r2.skip(i2 + 1);
        crate::fixed::lemma_find_char_props(r3, ',');
        let i3 = crate::fixed::find_char(r3, ',')->Some_0;
        let f3 = r3.take(i3);
        let city = r3.skip(i3 + 1);
        assert(r.date == date && r.city == city);
        assert(text_ok(date)) by {
            crate::fixed::lemma_find_char_props(date, '\r');
            assert(forall|k: int| 0 <= k < date.len() ==> #[trigger] date[k] == line[k]);
        }
        assert(text_ok(city)) by {
            crate::fixed::lemma_find_char_props(city, ',');
            crate::fixed::lemma_find_char_props(city, '\r');
            assert(forall|k: int| 0 <= k < r1.len() ==> #[trigger] r1[k] == line[k + i0 + 1]);
            assert(forall|k: int| 0 <= k < r2.len() ==> #[trigger] r2[k] == r1[k + i1 + 1]);
            assert(forall|k: int| 0 <= k < r3.len() ==> #[trigger] r3[k] == r2[k + i2 + 1]);
            assert(forall|k: int| 0 <= k < city.len() ==> #[trigger] city[k] == r3[k + i3 + 1]);
            assert(forall|k: int| 0 <= k < city.len() ==> #[trigger] city[k] != '\n');
        }
        crate::fixed::lemma_parse_fixed_bound(f1);
        crate::fixed::lemma_parse_fixed_bound(f2);
        crate::fixed::lemma_parse_fixed_bound(f3);
    }
}

/// Decode one row (a line without its newline).
#[verifier::rlimit(50)]
fn parse_line(line: &str) -> (r: Option<TemperatureRecord>)
    ensures
        r is Some <==> parse_row(line@) is Some,
        r is Some ==> Some(r->0@) == parse_row(line@),
{
    let len = line.unicode_len();
    let i0 = match crate::fixed::find_char_from(line, 0, ',') {
        None => {
            proof {
                crate::fixed::lemma_find_char_none(line@, ',');
            }
            return None;
        },
        Some(i) => {
            proof {
                crate::fixed::lemma_find_char_at(line@, ',', i as int);
            }
            i
        },
    };
    let ghost r1 = line@.skip(i0 as int + 1);
    proof {
        assert(forall|k: int| 0 <= k < r1.len() ==> #[trigger] r1[k] == line@[k + i0 + 1]);
    }
    let i1 = match crate::fixed::find_char_from(line, i0 + 1, ',') {
        None => {
            proof {
                crate::fixed::lemma_find_char_none(r1, ',');
            }
            return None;
        },
        Some(j) => {
            proof {
                assert(r1[j - (i0 + 1)] == ',');
                assert(forall|k: int| 0 <= k < j - (i0 + 1) ==> #[trigger] r1[k] != ',');
                crate::fixed::lemma_find_char_at(r1, ',', j - (i0 + 1));
            }
            j
        },
    };
    let ghost r2 = line@.skip(i1 as int + 1);
    proof {
        assert(r1.skip((i1 - (i0 + 1)) as int + 1) =~= r2);
        assert(forall|k: int| 0 <= k < r2.len() ==> #[trigger] r2[k] == line@[k + i1 + 1]);
    }
    let i2 = match crate::fixed::find_char_from(line, i1 + 1, ',') {
        None => {
            proof {
                crate::fixed::lemma_find_char_none(r2, ',');
            }
            return None;
        },
        Some(j) => {
            proof {
                assert(r2[j - (i1 + 1)] == ',');
                assert(forall|k: int| 0 <= k < j - (i1 + 1) ==> #[trigger] r2[k] != ',');
                crate::fixed::lemma_find_char_at(r2, ',', j - (i1 + 1));
            }
            j
        },
    };
    let ghost r3 = line@.skip(i2 as int + 1);
    proof {
        assert(r2.skip((i2 - (i1 + 1)) as int + 1) =~= r3);
        assert(forall|k: int| 0 <= k < r3.len() ==> #[trigger] r3[k] == line@[k + i2 + 1]);
    }
    let i3 = match crate::fixed::find_char_from(line, i2 + 1, ',') {
        None => {
            proof {
                crate::fixed::lemma_find_char_none(r3, ',');
            }
            return None;
        },
        Some(j) => {
            proof {
                assert(r3[j - (i2 + 1)] == ',');
                assert(forall|k: int| 0 <= k < j - (i2 + 1) ==> #[trigger] r3[k] != ',');
                crate::fixed::lemma_find_char_at(r3, ',', j - (i2 + 1));
            }
            j
        },
    };
    let ghost cityv = line@.skip(i3 as int + 1);
    proof {
        assert(r3.skip((i3 - (i2 + 1)) as int + 1) =~= cityv);
        assert(forall|k: int| 0 <= k < cityv.len() ==> #[trigger] cityv[k] == line@[k + i3 + 1]);
    }
    match crate::fixed::find_char_from(line, i3 + 1, ',') {
        Some(p) => {
            proof {
                assert(cityv[p - (i3 + 1)] == ',');
                crate::fixed::lemma_find_char_props(cityv, ',');
                if crate::fixed::find_char(cityv, ',') is None {
                    assert(cityv[p - (i3 + 1)] != ',');
                }
            }
            return None;
        },
        None => {
            proof {
                crate::fixed::lemma_find_char_none(cityv, ',');
            }
        },
    }
    let ghost datev = line@.take(i0 as int);
    proof {
        assert(forall|k: int| 0 <= k < datev.len() ==> #[trigger] datev[k] == line@[k]);
    }
    match crate::fixed::find_char_from(line, 0, '\r') {
        Some(p) => {
            if p < i0 {
                proof {
                    assert(datev[p as int] == '\r');
                    crate::fixed::lemma_find_char_props(datev, '\r');
                    if crate::fixed::find_char(datev, '\r') is None {
                        assert(datev[p as int] != '\r');
                    }
                }
                return None;
            }
            proof {
                crate::fixed::lemma_find_char_none(datev, '\r');
            }
        },
        None => {
            proof {
                crate::fixed::lemma_find_char_none(datev, '\r');
            }
        },
    }
    match crate::fixed::find_char_from(line, i3 + 1, '\r') {
        Some(p) => {
            proof {
                assert(cityv[p - (i3 + 1)] == '\r');
                crate::fixed::lemma_find_char_props(cityv, '\r');
                if crate::fixed::find_char(cityv, '\r') is None {
                    assert(cityv[p - (i3 + 1)] != '\r');
                }
            }
            return None;
        },
        None => {
            proof {
                crate::fixed::lemma_find_char_none(cityv, '\r');
            }
        },
    }
    let f1s = line.substring_char(i0 + 1, i1);
    let f2s = line.substring_char(i1 + 1, i2);
    let f3s = line.substring_char(i2 + 1, i3);
    proof {
        assert(f1s@ =~= r1.take((i1 - (i0 + 1)) as int));
        assert(f2s@ =~= r2.take((i2 - (i1 + 1)) as int));
        assert(f3s@ =~= r3.take((i3 - (i2 + 1)) as int));
    }
    let m = match crate::fixed::parse_fixed(f1s) {
        None => {
            return None;
        },
        Some(v) => v,
    };
    let x = match crate::fixed::parse_fixed(f2s) {
        None => {
            return None;
        },
        Some(v) => v,
    };
    let n = match crate::fixed::parse_fixed(f3s) {
        None => {
            return None;
        },
        Some(v) => v,
    };
    let rec = TemperatureRecord {
        date: line.substring_char(0, i0).to_owned(),
        temp_mean: m,
        temp_max: x,
        temp_min: n,
        city: line.substring_char(i3 + 1, len).to_owned(),
    };
    proof {
        assert(rec@.date =~= datev);
        assert(rec@.city =~= cityv);
        assert(parse_row(line@)->Some_0 =~= rec@);
    }
    Some(rec)
}

/// Decode a whole persisted store text.  Empty text is the empty store; a
/// malformed row or a repeated `(city, date)` key is a fatal parse error,
/// never skipped.
pub fn store_from_text(s: &str) -> (r: Result<HistoryStore, WeatherError>)
    ensures
        r is Ok <==> parse_store(s@) is Some,
        r is Ok ==> Some(r->Ok_0@) == parse_store(s@) && r->Ok_0.wf(),
        r is Err ==> r->Err_0 == WeatherError::Parse,
{
    let len = s.unicode_len();
    if len == 0 {
        let st = HistoryStore::new();
        return Ok(st);
    }
    let header = String::from_str("date,temp_mean,temp_max,temp_min,city\n");
    let hlen = header.as_str().unicode_len();
    proof {
        assert(header@ == header_row());
    }
    if len < hlen {
        return Err(WeatherError::Parse);
    }
    let pre = s.substring_char(0, hlen).to_owned();
    if !pre.eq(&header) {
        proof {
            assert(pre@ =~= s@.take(hlen as int));
        }
        return Err(WeatherError::Parse);
    }
    proof {
        assert(pre@ =~= s@.take(hlen as int));
    }
    let mut store = HistoryStore::new();
    let mut pos: usize = hlen;
    while pos < len
        invariant
            hlen <= pos <= len == s@.len(),
            len > 0,
            hlen == header_row().len(),
            s@.take(hlen as int) == header_row(),
            store.wf(),
            (match parse_rows(s@.subrange(pos as int, len as int)) {
                Some(rest) => parse_rows(s@.skip(hlen as int)) == Some(store@ + rest),
                None => parse_rows(s@.skip(hlen as int)) is None,
            }),
        decreases len - pos,
    {
        let ghost cur = s@.subrange(pos as int, len as int);
        proof {
            assert(forall|k: int| 0 <= k < cur.len() ==> #[trigger] cur[k] == s@[k + pos]);
        }
        let e = match crate::fixed::find_char_from(s, pos, '\n') {
            None => {
                proof {
                    crate::fixed::lemma_find_char_none(cur, '\n');
                }
                return Err(WeatherError::Parse);
            },
            Some(e) => {
                proof {
                    assert(cur[e - pos] == '\n');
                    assert(forall|k: int| 0 <= k < e - pos ==> #[trigger] cur[k] != '\n');
                    crate::fixed::lemma_find_char_at(cur, '\n', e - pos);
                }
                e
            },
        };
        let linestr = s.substring_char(pos, e);
        proof {
            assert(linestr@ =~= cur.take(e - pos));
        }
        let rec = match parse_line(linestr) {
            None => {
                return Err(WeatherError::Parse);
            },
            Some(rec) => rec,
        };
        let ghost rest_before = parse_rows(cur);
        let dup = store.find(rec.city.as_str(), rec.date.as_str());
        if dup.is_some() {
            proof {
                lemma_find_rec_props(store@, rec@.city, rec@.date);
                let w = choose|w: int|
                    0 <= w < store@.len() && key_is(#[trigger] store@[w], rec@.city, rec@.date);
                if parse_rows(s@.skip(hlen as int)) is Some {
                    let total = parse_rows(s@.skip(hlen as int))->Some_0;
                    let rest = parse_rows(cur)->Some_0;
                    assert(total == store@ + rest);
                    assert(rest[0] == rec@);
                    assert(total[store@.len() as int] == rec@);
                    assert(total[w] == store@[w]);
                    assert(same_key(total[w], total[store@.len() as int]));
                    assert(!no_dup_keys(total));
                }
            }
            return Err(WeatherError::Parse);
        }
        proof {
            lemma_parse_row_wf(cur.take(e - pos));
            lemma_find_rec_props(store@, rec@.city, rec@.date);
        }
        let inserted = store.insert_if_absent(rec);
        proof {
            let cur2 = s@.subrange(e + 1, len as int);
            assert(cur.skip(e - pos + 1) =~= cur2);
            match parse_rows(cur2) {
                Some(rest2) => {
                    assert(parse_rows(cur) is Some);
                    assert(parse_rows(s@.skip(hlen as int)) is Some);
                    let total = parse_rows(s@.skip(hlen as int))->Some_0;
                    assert(total =~= store@ + rest2);
                },
                None => {
                    assert(parse_rows(cur) is None);
                },
            }
        }
        pos = e + 1;
    }
    proof {
        assert(s@.subrange(pos as int, len as int) =~= Seq::<char>::empty());
        assert(parse_rows(s@.skip(hlen as int)) == Some(store@ + Seq::<TemperatureRecordV>::empty()));
        assert(store@ + Seq::<TemperatureRecordV>::empty() =~= store@);
        assert(parse_store(s@) == Some(store@));
    }
    Ok(store)
}

/// Appending a record appends its row to the rendered text.
proof fn lemma_render_rows_snoc(s: Seq<TemperatureRecordV>, r: TemperatureRecordV)
    ensures
        render_rows(s.push(r)) == render_rows(s) + render_row(r),
    decreases s.len(),
{
    let p = s.push(r);
    assert(render_rows(p) == render_row(p[0]) + render_rows(p.skip(1)));
    if s.len() == 0 {
        assert(p[0] == r);
        assert(p.skip(1) =~= Seq::<TemperatureRecordV>::empty());
        assert(render_rows(Seq::<TemperatureRecordV>::empty()) =~= Seq::<char>::empty());
        assert(render_rows(s) =~= Seq::<char>::empty());
        assert(render_rows(p) =~= render_rows(s) + render_row(r));
    } else {
        assert(p.skip(1) =~= s.skip(1).push(r));
        lemma_render_rows_snoc(s.skip(1), r);
        assert(p[0] == s[0]);
        assert(render_rows(s) == render_row(s[0]) + render_rows(s.skip(1)));
        assert(render_rows(p) =~= render_rows(s) + render_row(r));
    }
}

/// Render one record as its persisted row.
fn row_str(r: &TemperatureRecord) -> (s: String)
    requires
        r.wf(),
    ensures
        s@ == render_row(r@),
{
    let mut s = String::new();
    s.append(r.date.as_str());
    s.append(",");
    let m = crate::fixed::fmt_fixed2(r.temp_mean);
    s.append(m.as_str());
    s.append(",");
    let x = crate::fixed::fmt_fixed2(r.temp_max);
    s.append(x.as_str());
    s.append(",");
    let n = crate::fixed::fmt_fixed2(r.temp_min);
    s.append(n.as_str());
    s.append(",");
    s.append(r.city.as_str());
    s.append("\n");
    proof {
        assert(s@ =~= render_row(r@));
    }
    s
}

/// Render the whole store in its persisted text form.
pub fn store_to_text(store: &HistoryStore) -> (s: String)
    requires
        store.wf(),
    ensures
        s@ == render_store(store@),
{
    let mut s = String::from_str("date,temp_mean,temp_max,temp_min,city\n");
    let n = store.records.len();
    let mut i: usize = 0;
    proof {
        assert(render_rows(store@.take(0)) =~= Seq::<char>::empty());
        assert(s@ =~= header_row() + render_rows(store@.take(0)));
    }
    while i < n
        invariant
            0 <= i <= n == store@.len(),
            store.wf(),
            s@ == header_row() + render_rows(store@.take(i as int)),
        decreases n - i,
    {
        proof {
            assert(rec_wf(store@[i as int]));
            assert(store@[i as int] == store.records@[i as int]@);
        }
        let row = row_str(&store.records[i]);
        s.append(row.as_str());
        proof {
            let pre = store@.take(i as int);
            let post = store@.take(i as int + 1);
            assert(post =~= pre.push(store@[i as int]));
            lemma_render_rows_snoc(pre, store@[i as int]);
        }
        i = i + 1;
    }
    proof {
        assert(store@.take(n as int) =~= store@);
    }
    s
}

/// Signed day-over-day change, in hundredths of a degree.
#[derive(Clone, Copy, PartialEq, Eq, Structural, Debug)]
pub struct TemperatureChange {
    pub mean_change: i64,
    pub max_change: i64,
    pub min_change: i64,
}

/// The previous calendar day of a date text, again as date text; nothing
/// when the text is not a valid date or the previous day underflows the
/// calendar.
pub open spec fn prev_date_str(date: Seq<char>) -> Option<Seq<char>> {
    match parse_date_spec(date) {
        None => None,
        Some(d) => match prev_day_spec(d) {
            None => None,
            Some(p) => Some(date_str_spec(p)),
        },
    }
}

/// Idempotent save of one record, keyed by `(city, date)`: a repeated key
/// is a no-op.  Reports whether the record was new; the caller rewrites
/// the persisted text exactly when it was.
pub fn save_temperature_record(store: &mut HistoryStore, record: &TemperatureRecord) -> (inserted:
    bool)
    requires
        old(store).wf(),
        record.wf(),
    ensures
        final(store)@ == spec_insert(old(store)@, record@),
        inserted == !has_key(old(store)@, record@.city, record@.date),
        final(store).wf(),
{
    store.insert_if_absent(record.duplicate())
}

/// One merged find-or-insert-and-diff pass over the store.
///
/// Fails (leaving the store unchanged) exactly when the record's date is
/// not a valid date or its previous day underflows the calendar.
/// Otherwise today's record is inserted unless its key is already present,
/// and the result is the exact field-wise difference against the record
/// for the same city on the previous calendar day -- or nothing when no
/// such record exists, a normal outcome, not an error.
pub fn count_temperature_change(
    store: &mut HistoryStore,
    current_record: &TemperatureRecord,
) -> (r: Result<Option<TemperatureChange>, WeatherError>)
    requires
        old(store).wf(),
        current_record.wf(),
    ensures
        r is Ok <==> prev_date_str(current_record@.date) is Some,
        r is Err ==> r->Err_0 == WeatherError::DateArithmetic && final(store)@ == old(store)@,
        r is Ok ==> final(store)@ == spec_insert(old(store)@, current_record@) && final(store).wf()
            && (match find_rec(
            old(store)@,
            current_record@.city,
            prev_date_str(current_record@.date)->Some_0,
        ) {
            Some(prev) => r->Ok_0 is Some && r->Ok_0->Some_0.mean_change as int
                == current_record@.temp_mean - prev.temp_mean && r->Ok_0->Some_0.max_change as int
                == current_record@.temp_max - prev.temp_max && r->Ok_0->Some_0.min_change as int
                == current_record@.temp_min - prev.temp_min,
            None => r->Ok_0 is None,
        }),
{
    let d = match parse_date(current_record.date.as_str()) {
        None => {
            return Err(WeatherError::DateArithmetic);
        },
        Some(d) => d,
    };
    let p = match prev_day(d) {
        None => {
            return Err(WeatherError::DateArithmetic);
        },
        Some(p) => p,
    };
    let prev_str = fmt_date(p);
    let found = store.find(current_record.city.as_str(), prev_str.as_str());
    let change = match found {
        Some(prev) => {
            proof {
                lemma_find_rec_props(store@, current_record@.city, prev_str@);
                let i = choose|i: int| 0 <= i < store@.len() && #[trigger] store@[i] == prev@;
                assert(rec_wf(store@[i]));
            }
            Some(
                TemperatureChange {
                    mean_change: current_record.temp_mean - prev.temp_mean,
                    max_change: current_record.temp_max - prev.temp_max,
                    min_change: current_record.temp_min - prev.temp_min,
                },
            )
        },
        None => None,
    };
    store.insert_if_absent(current_record.duplicate());
    Ok(change)
}

/// The canonical number form contains no separator or line break.
proof fn lemma_fmt2_clean(v: int)
    requires
        fixed_ok(v),
    ensures
        forall|j: int|
            0 <= j < fmt_fixed2_spec(v).len() ==> (#[trigger] fmt_fixed2_spec(v)[j]) != ','
                && fmt_fixed2_spec(v)[j] != '\n' && fmt_fixed2_spec(v)[j] != '\r',
{
    reveal_strlit("-");
    reveal_strlit(".");
    let a = crate::fixed::abs_i(v);
    let f = a % 100;
    let d = crate::fixed::u_dec((a / 100) as nat);
    crate::fixed::lemma_u_dec_digits((a / 100) as nat);
    let fmt = fmt_fixed2_spec(v);
    assert forall|j: int| 0 <= j < fmt.len() implies (#[trigger] fmt[j]) != ',' && fmt[j] != '\n'
        && fmt[j] != '\r' by {
        let sign: Seq<char> = if v < 0 {
            "-"@
        } else {
            Seq::<char>::empty()
        };
        assert(fmt == sign + d + "."@ + seq![
            crate::fixed::digit_char(f / 10),
            crate::fixed::digit_char(f % 10),
        ]);
        if j < sign.len() {
            assert(fmt[j] == '-');
        } else if j < sign.len() + d.len() {
            assert(fmt[j] == d[j - sign.len()]);
            assert(crate::fixed::is_digit(d[j - sign.len()]));
        } else if j == sign.len() + d.len() {
            assert(fmt[j] == '.');
        } else {
            assert(crate::fixed::is_digit(fmt[j])) by {
                crate::fixed::lemma_digit_char_val(f / 10);
                crate::fixed::lemma_digit_char_val(f % 10);
            }
        }
    }
}

/// A well-formed record's row core holds no newline.
#[verifier::rlimit(50)]
proof fn lemma_row_core_clean(r: TemperatureRecordV)
    requires
        rec_wf(r),
    ensures
        forall|j: int| 0 <= j < row_core(r).len() ==> (#[trigger] row_core(r)[j]) != '\n',
{
    reveal_strlit(",");
    let line = row_core(r);
    let f1 = fmt_fixed2_spec(r.temp_mean);
    let f2 = fmt_fixed2_spec(r.temp_max);
    let f3 = fmt_fixed2_spec(r.temp_min);
    lemma_fmt2_clean(r.temp_mean);
    lemma_fmt2_clean(r.temp_max);
    lemma_fmt2_clean(r.temp_min);
    let i0 = r.date.len() as int;
    let i1 = f1.len() as int;
    let i2 = f2.len() as int;
    let i3 = f3.len() as int;
    let r1 = line.skip(i0 + 1);
    assert(r1 =~= f1 + ","@ + f2 + ","@ + f3 + ","@ + r.city);
    let r2 = r1.skip(i1 + 1);
    assert(r2 =~= f2 + ","@ + f3 + ","@ + r.city);
    let r3 = r2.skip(i2 + 1);
    assert(r3 =~= f3 + ","@ + r.city);
    assert forall|j: int| 0 <= j < line.len() implies (#[trigger] line[j]) != '\n' by {
        if j < i0 {
            assert(line[j] == r.date[j]);
        } else if j == i0 {
            assert(line[j] == ',');
        } else {
            assert(line[j] == r1[j - (i0 + 1)]);
            let k = j - (i0 + 1);
            if k < i1 {
            } else if k == i1 {
            } else {
                assert(r1[k] == r2[k - (i1 + 1)]);
                let k2 = k - (i1 + 1);
                if k2 < i2 {
                } else if k2 == i2 {
                } else {
                    assert(r2[k2] == r3[k2 - (i2 + 1)]);
                    let k3 = k2 - (i2 + 1);
                    if k3 < i3 {
                    } else if k3 == i3 {
                    } else {
                        assert(r3[k3] == r.city[k3 - (i3 + 1)]);
                    }
                }
            }
        }
    }
}

/// Splitting off the leading comma-free field of `field + "," + rest`.
proof fn lemma_field_comma(s: Seq<char>, field: Seq<char>, rest: Seq<char>)
    requires
        s == field + ","@ + rest,
        forall|j: int| 0 <= j < field.len() ==> #[trigger] field[j] != ',',
    ensures
        crate::fixed::find_char(s, ',') == Some(field.len() as int),
        s.take(field.len() as int) == field,
        s.skip(field.len() as int + 1) == rest,
{
    reveal_strlit(",");
    let l = field.len() as int;
    assert(s[l] == ',');
    assert(forall|j: int| 0 <= j < l ==> #[trigger] s[j] == field[j]);
    crate::fixed::lemma_find_char_at(s, ',', l);
    assert(s.take(l) =~= field);
    assert(s.skip(l + 1) =~= rest);
}

/// A well-formed record's row decodes back to the record.
#[verifier::rlimit(50)]
proof fn lemma_row_round_trip(r: TemperatureRecordV)
    requires
        rec_wf(r),
    ensures
        parse_row(row_core(r)) == Some(r),
{
    let line = row_core(r);
    let f1 = fmt_fixed2_spec(r.temp_mean);
    let f2 = fmt_fixed2_spec(r.temp_max);
    let f3 = fmt_fixed2_spec(r.temp_min);
    lemma_fmt2_clean(r.temp_mean);
    lemma_fmt2_clean(r.temp_max);
    lemma_fmt2_clean(r.temp_min);
    crate::fixed::lemma_fixed_round_trip(r.temp_mean);
    crate::fixed::lemma_fixed_round_trip(r.temp_max);
    crate::fixed::lemma_fixed_round_trip(r.temp_min);
    let r1 = f1 + ","@ + (f2 + ","@ + (f3 + ","@ + r.city));
    assert(line =~= r.date + ","@ + r1);
    lemma_field_comma(line, r.date, r1);
    let r2 = f2 + ","@ + (f3 + ","@ + r.city);
    lemma_field_comma(r1, f1, r2);
    let r3 = f3 + ","@ + r.city;
    lemma_field_comma(r2, f2, r3);
    lemma_field_comma(r3, f3, r.city);
    crate::fixed::lemma_find_char_none(r.city, ',');
    crate::fixed::lemma_find_char_none(r.city, '\r');
    crate::fixed::lemma_find_char_none(r.date, '\r');
    assert(parse_row(line)->Some_0 =~= r);
}

/// Rendering well-formed records and decoding them gives the records back.
proof fn lemma_rows_round_trip(s: Seq<TemperatureRecordV>)
    requires
        forall|i: int| 0 <= i < s.len() ==> rec_wf(#[trigger] s[i]),
    ensures
        parse_rows(render_rows(s)) == Some(s),
    decreases s.len(),
{
    reveal_strlit("\n");
    if s.len() == 0 {
        assert(parse_rows(render_rows(s)) == Some(Seq::<TemperatureRecordV>::empty()));
        assert(Seq::<TemperatureRecordV>::empty() =~= s);
    } else {
        lemma_row_round_trip(s[0]);
        lemma_row_core_clean(s[0]);
        let core = row_core(s[0]);
        let text = render_rows(s);
        let rest = render_rows(s.skip(1));
        assert(text =~= core + "\n"@ + rest);
        let l = core.len() as int;
        assert(text[l] == '\n');
        assert(forall|j: int| 0 <= j < l ==> #[trigger] text[j] == core[j]);
        crate::fixed::lemma_find_char_at(text, '\n', l);
        assert(text.take(l) =~= core);
        assert(text.skip(l + 1) =~= rest);
        assert(forall|i: int| 0 <= i < s.skip(1).len() ==> rec_wf(#[trigger] s.skip(1)[i])) by {
            assert(forall|i: int|
                0 <= i < s.skip(1).len() ==> #[trigger] s.skip(1)[i] == s[i + 1]);
        }
        lemma_rows_round_trip(s.skip(1));
        assert(parse_rows(text) == Some(seq![s[0]] + s.skip(1)));
        assert(seq![s[0]] + s.skip(1) =~= s);
    }
}

/// Round trip: decoding a rendered well-formed store gives exactly the
/// records that were rendered, key for key and value for value.
pub proof fn lemma_store_round_trip(s: Seq<TemperatureRecordV>)
    requires
        store_wf(s),
    ensures
        parse_store(render_store(s)) == Some(s),
{
    reveal_strlit("date,temp_mean,temp_max,temp_min,city\n");
    let text = render_store(s);
    let hlen = header_row().len() as int;
    assert(hlen > 0);
    assert(text.take(hlen) =~= header_row());
    assert(text.skip(hlen) =~= render_rows(s));
    lemma_rows_round_trip(s);
}

} // verus!
