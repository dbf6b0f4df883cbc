//! Fixed-point decimals in hundredths.
//!
//! Temperatures, humidities and precipitation amounts travel as decimal text
//! ("25", "-3.5").  The core holds them as `i64` counts of hundredths and
//! this module gives the verified parser and formatters between the two
//! representations, together with the round-trip law the history store
//! relies on.

use vstd::prelude::*;

verus! {

/// Largest magnitude (in hundredths) the parser accepts and the formatters
/// require: seven integer digits and two fraction digits.
pub const MAX_FIXED: i64 = 999_999_999;

/// Whether a fixed-point value is within the representable range.
pub open spec fn fixed_ok(v: int) -> bool {
    -(MAX_FIXED as int) <= v <= MAX_FIXED as int
}

pub open spec fn is_digit(c: char) -> bool {
    c == '0' || c == '1' || c == '2' || c == '3' || c == '4' || c == '5' || c == '6' || c == '7'
        || c == '8' || c == '9'
}

/// Numeric value of a decimal digit character; zero on non-digits.
pub open spec fn digit_val(c: char) -> int {
    if c == '1' {
        1
    } else if c == '2' {
        2
    } else if c == '3' {
        3
    } else if c == '4' {
        4
    } else if c == '5' {
        5
    } else if c == '6' {
        6
    } else if c == '7' {
        7
    } else if c == '8' {
        8
    } else if c == '9' {
        9
    } else {
        0
    }
}

/// The decimal digit character for a value below ten; '0' otherwise.
pub open spec fn digit_char(d: int) -> char {
    if d == 1 {
        '1'
    } else if d == 2 {
        '2'
    } else if d == 3 {
        '3'
    } else if d == 4 {
        '4'
    } else if d == 5 {
        '5'
    } else if d == 6 {
        '6'
    } else if d == 7 {
        '7'
    } else if d == 8 {
        '8'
    } else if d == 9 {
        '9'
    } else {
        '0'
    }
}

pub open spec fn all_digits(s: Seq<char>) -> bool {
    forall|i: int| 0 <= i < s.len() ==> #[trigger] is_digit(s[i])
}

/// Value of a string of decimal digits, most significant first.
pub open spec fn digits_val(s: Seq<char>) -> int
    decreases s.len(),
{
    if s.len() == 0 {
        0
    } else {
        digits_val(s.drop_last()) * 10 + digit_val(s.last())
    }
}

/// Decimal digit string of a natural number, without leading zeros.
pub open spec fn u_dec(n: nat) -> Seq<char>
    decreases n,
{
    if n < 10 {
        seq![digit_char(n as int)]
    } else {
        u_dec(n / 10).push(digit_char((n % 10) as int))
    }
}

pub proof fn lemma_digit_char_val(d: int)
    requires
        0 <= d <= 9,
    ensures
        is_digit(digit_char(d)),
        digit_val(digit_char(d)) == d,
{
}

pub proof fn lemma_u_dec_digits(n: nat)
    ensures
        all_digits(u_dec(n)),
        u_dec(n).len() >= 1,
        digits_val(u_dec(n)) == n,
    decreases n,
{
    if n < 10 {
        lemma_digit_char_val(n as int);
        assert(u_dec(n).drop_last() =~= Seq::<char>::empty());
        assert(u_dec(n).last() == digit_char(n as int));
        assert(digits_val(Seq::<char>::empty()) == 0);
        assert(digits_val(u_dec(n)) == n);
    } else {
        lemma_u_dec_digits(n / 10);
        lemma_digit_char_val((n % 10) as int);
        assert(u_dec(n).drop_last() =~= u_dec(n / 10));
        assert(u_dec(n).last() == digit_char((n % 10) as int));
        assert(digits_val(u_dec(n)) == (n / 10) * 10 + n % 10);
        vstd::arithmetic::div_mod::lemma_fundamental_div_mod(n as int, 10);
    }
}

/// A value below `10^k` prints in at most `k` digits.
pub proof fn lemma_u_dec_len(n: nat, k: nat)
    requires
        k >= 1,
        n < pow10(k),
    ensures
        u_dec(n).len() <= k,
    decreases n,
{
    if n < 10 {
    } else {
        assert(pow10(k) == 10 * pow10((k - 1) as nat));
        assert(n / 10 < pow10((k - 1) as nat)) by (nonlinear_arith)
            requires
                n >= 10 && n < 10 * pow10((k - 1) as nat),
        ;
        assert(k - 1 >= 1) by {
            if k == 1 {
                assert(pow10(1) == 10);
                assert(false);
            }
        }
        lemma_u_dec_len(n / 10, (k - 1) as nat);
    }
}

pub open spec fn pow10(k: nat) -> int
    decreases k,
{
    if k == 0 {
        1
    } else {
        10 * pow10((k - 1) as nat)
    }
}

/// A string of at most `k` digits has a value below `10^k`.
pub proof fn lemma_digits_val_bound(s: Seq<char>, k: nat)
    requires
        all_digits(s),
        s.len() <= k,
    ensures
        0 <= digits_val(s) < pow10(k),
    decreases s.len(),
{
    if s.len() == 0 {
        lemma_pow10_pos(k);
    } else {
        assert(k >= 1);
        let p = s.drop_last();
        assert(all_digits(p)) by {
            assert(forall|i: int| 0 <= i < p.len() ==> p[i] == s[i] && #[trigger] is_digit(s[i]));
        }
        lemma_digits_val_bound(p, (k - 1) as nat);
        assert(is_digit(s[s.len() - 1]));
        assert(0 <= digit_val(s.last()) <= 9);
        assert(digits_val(p) * 10 <= (pow10((k - 1) as nat) - 1) * 10) by (nonlinear_arith)
            requires
                digits_val(p) <= pow10((k - 1) as nat) - 1,
        ;
        assert(digits_val(p) * 10 >= 0) by (nonlinear_arith)
            requires
                digits_val(p) >= 0,
        ;
        assert(pow10(k) == 10 * pow10((k - 1) as nat));
    }
}

pub proof fn lemma_pow10_pos(k: nat)
    ensures
        pow10(k) >= 1,
    decreases k,
{
    if k > 0 {
        lemma_pow10_pos((k - 1) as nat);
    }
}

/// Digit character of a value below ten, as a one-character string slice.
pub(crate) fn digit_str(d: u8) -> (r: &'static str)
    requires
        d <= 9,
    ensures
        r@ =~= seq![digit_char(d as int)],
{
    proof {
        reveal_strlit("0");
        reveal_strlit("1");
        reveal_strlit("2");
        reveal_strlit("3");
        reveal_strlit("4");
        reveal_strlit("5");
        reveal_strlit("6");
        reveal_strlit("7");
        reveal_strlit("8");
        reveal_strlit("9");
    }
    match d {
        0 => "0",
        1 => "1",
        2 => "2",
        3 => "3",
        4 => "4",
        5 => "5",
        6 => "6",
        7 => "7",
        8 => "8",
        _ => "9",
    }
}

/// Index of the first occurrence of `c` in `s`.
pub open spec fn find_char(s: Seq<char>, c: char) -> Option<int>
    decreases s.len(),
{
    if s.len() == 0 {
        None
    } else if s[0] == c {
        Some(0int)
    } else {
        match find_char(s.skip(1), c) {
            Some(i) => Some(i + 1),
            None => None,
        }
    }
}

pub proof fn lemma_find_char_props(s: Seq<char>, c: char)
    ensures
        match find_char(s, c) {
            Some(i) => 0 <= i < s.len() && s[i] == c && forall|j: int|
                0 <= j < i ==> #[trigger] s[j] != c,
            None => forall|j: int| 0 <= j < s.len() ==> #[trigger] s[j] != c,
        },
    decreases s.len(),
{
    if s.len() == 0 {
    } else if s[0] == c {
    } else {
        lemma_find_char_props(s.skip(1), c);
        assert(forall|j: int| 1 <= j < s.len() ==> #[trigger] s[j] == s.skip(1)[j - 1]);
    }
}

pub proof fn lemma_find_char_at(s: Seq<char>, c: char, i: int)
    requires
        0 <= i < s.len(),
        s[i] == c,
        forall|j: int| 0 <= j < i ==> #[trigger] s[j] != c,
    ensures
        find_char(s, c) == Some(i),
    decreases i,
{
    if i == 0 {
    } else {
        assert(s.skip(1)[i - 1] == s[i]);
        assert(forall|j: int| 0 <= j < i - 1 ==> #[trigger] s.skip(1)[j] == s[j + 1]);
        lemma_find_char_at(s.skip(1), c, i - 1);
    }
}

pub proof fn lemma_find_char_none(s: Seq<char>, c: char)
    requires
        forall|j: int| 0 <= j < s.len() ==> #[trigger] s[j] != c,
    ensures
        find_char(s, c) is None,
{
    lemma_find_char_props(s, c);
    if find_char(s, c) is Some {
        let i = find_char(s, c)->Some_0;
        assert(s[i] != c);
    }
}

/// Value in hundredths of a fraction part: the first two digits count,
/// further digits are beyond the resolution and are ignored.
pub open spec fn frac_val(fp: Seq<char>) -> int {
    digit_val(fp[0]) * 10 + if fp.len() >= 2 {
        digit_val(fp[1])
    } else {
        0
    }
}

/// Grammar of an unsigned fixed-point decimal: one to seven integer digits,
/// optionally followed by a dot and at least one fraction digit.
pub open spec fn parse_ufixed_spec(s: Seq<char>) -> Option<int> {
    match find_char(s, '.') {
        Some(i) => {
            let ip = s.take(i);
            let fp = s.skip(i + 1);
            if 1 <= ip.len() <= 7 && all_digits(ip) && 1 <= fp.len() && all_digits(fp) {
                Some(digits_val(ip) * 100 + frac_val(fp))
            } else {
                None
            }
        },
        None => if 1 <= s.len() <= 7 && all_digits(s) {
            Some(digits_val(s) * 100)
        } else {
            None
        },
    }
}

/// Grammar of a fixed-point decimal with an optional leading minus sign.
pub open spec fn parse_fixed_spec(s: Seq<char>) -> Option<int> {
    if s.len() > 0 && s[0] == '-' {
        match parse_ufixed_spec(s.skip(1)) {
            Some(v) => Some(-v),
            None => None,
        }
    } else {
        parse_ufixed_spec(s)
    }
}

/// Every value the grammar accepts is within the fixed-point range.
pub proof fn lemma_parse_fixed_bound(s: Seq<char>)
    ensures
        parse_fixed_spec(s) is Some ==> fixed_ok(parse_fixed_spec(s)->Some_0),
{
    lemma_parse_ufixed_bound(s);
    if s.len() > 0 && s[0] == '-' {
        lemma_parse_ufixed_bound(s.skip(1));
    }
}

proof fn lemma_parse_ufixed_bound(s: Seq<char>)
    ensures
        parse_ufixed_spec(s) is Some ==> 0 <= parse_ufixed_spec(s)->Some_0 <= MAX_FIXED as int,
{
    lemma_pow10_7();
    match find_char(s, '.') {
        Some(i) => {
            let ip = s.take(i);
            let fp = s.skip(i + 1);
            if 1 <= ip.len() <= 7 && all_digits(ip) && 1 <= fp.len() && all_digits(fp) {
                lemma_digits_val_bound(ip, 7);
                assert(is_digit(fp[0]));
                if fp.len() >= 2 {
                    assert(is_digit(fp[1]));
                }
                assert(0 <= frac_val(fp) <= 99);
                assert(digits_val(ip) * 100 <= 9999999 * 100) by (nonlinear_arith)
                    requires
                        digits_val(ip) <= 9999999,
                ;
                assert(digits_val(ip) * 100 >= 0) by (nonlinear_arith)
                    requires
                        digits_val(ip) >= 0,
                ;
            }
        },
        None => {
            if 1 <= s.len() <= 7 && all_digits(s) {
                lemma_digits_val_bound(s, 7);
                assert(digits_val(s) * 100 <= 9999999 * 100) by (nonlinear_arith)
                    requires
                        digits_val(s) <= 9999999,
                ;
                assert(digits_val(s) * 100 >= 0) by (nonlinear_arith)
                    requires
                        digits_val(s) >= 0,
                ;
            }
        },
    }
}

pub proof fn lemma_pow10_7()
    ensures
        pow10(7) == 10000000,
{
    assert(pow10(0) == 1);
    assert(pow10(1) == 10);
    assert(pow10(2) == 100);
    assert(pow10(3) == 1000);
    assert(pow10(4) == 10000);
    assert(pow10(5) == 100000);
    assert(pow10(6) == 1000000);
    assert(pow10(7) == 10000000);
}

/// Decimal digit and its value, or nothing for any other character.
pub(crate) fn digit_of(c: char) -> (r: Option<u8>)
    ensures
        r is Some == is_digit(c),
        r is Some ==> r->0 as int == digit_val(c),
{
    match c {
        '0' => Some(0),
        '1' => Some(1),
        '2' => Some(2),
        '3' => Some(3),
        '4' => Some(4),
        '5' => Some(5),
        '6' => Some(6),
        '7' => Some(7),
        '8' => Some(8),
        '9' => Some(9),
        _ => None,
    }
}

/// First position of `c` in `s` at or after `start`.
pub(crate) fn find_char_from(s: &str, start: usize, c: char) -> (r: Option<usize>)
    requires
        start <= s@.len(),
    ensures
        match r {
            Some(i) => start <= i < s@.len() && s@[i as int] == c && forall|j: int|
                start <= j < i ==> #[trigger] s@[j] != c,
            None => forall|j: int| start <= j < s@.len() ==> #[trigger] s@[j] != c,
        },
{
    let len = s.unicode_len();
    let mut k = start;
    while k < len
        invariant
            start <= k <= len,
            len == s@.len(),
            forall|j: int| start <= j < k ==> #[trigger] s@[j] != c,
        decreases len - k,
    {
        if s.get_char(k) == c {
            return Some(k);
        }
        k = k + 1;
    }
    None
}

/// Whether every character in `s[start..end]` is a decimal digit.
pub(crate) fn check_digits(s: &str, start: usize, end: usize) -> (r: bool)
    requires
        start <= end <= s@.len(),
    ensures
        r == all_digits(s@.subrange(start as int, end as int)),
{
    let ghost part = s@.subrange(start as int, end as int);
    let mut k = start;
    while k < end
        invariant
            start <= k <= end <= s@.len(),
            part == s@.subrange(start as int, end as int),
            forall|j: int| 0 <= j < k - start ==> #[trigger] is_digit(part[j]),
        decreases end - k,
    {
        let c = s.get_char(k);
        proof {
            assert(part[k - start] == s@[k as int]);
        }
        if digit_of(c).is_none() {
            return false;
        }
        k = k + 1;
    }
    true
}

/// Value of the digit string `s[start..end]`, which must be all digits and
/// at most seven characters long.
pub(crate) fn digits_value(s: &str, start: usize, end: usize) -> (r: u64)
    requires
        start <= end <= s@.len(),
        end - start <= 7,
        all_digits(s@.subrange(start as int, end as int)),
    ensures
        r as int == digits_val(s@.subrange(start as int, end as int)),
        r < 10000000,
{
    let ghost whole = s@.subrange(start as int, end as int);
    let mut v: u64 = 0;
    let mut k = start;
    proof {
        lemma_pow10_7();
        assert(s@.subrange(start as int, start as int) =~= Seq::<char>::empty());
    }
    while k < end
        invariant
            start <= k <= end <= s@.len(),
            end - start <= 7,
            whole == s@.subrange(start as int, end as int),
            all_digits(whole),
            v as int == digits_val(s@.subrange(start as int, k as int)),
            (v as int) < pow10((k - start) as nat),
            pow10(7) == 10000000,
        decreases end - k,
    {
        let ghost pre = s@.subrange(start as int, k as int);
        let c = s.get_char(k);
        proof {
            assert(whole[k - start] == s@[k as int]);
            assert(is_digit(whole[k - start]));
        }
        let d = digit_of(c).unwrap();
        proof {
            let post = s@.subrange(start as int, k + 1);
            assert(post.drop_last() =~= pre);
            assert(post.last() == s@[k as int]);
            lemma_pow10_le(((k - start) + 1) as nat, 7);
            assert(v as int * 10 + 9 < pow10((k - start + 1) as nat)) by (nonlinear_arith)
                requires
                    (v as int) < pow10((k - start) as nat),
                    pow10((k - start + 1) as nat) == 10 * pow10((k - start) as nat),
            ;
        }
        v = v * 10 + (d as u64);
        k = k + 1;
    }
    proof {
        lemma_pow10_le((end - start) as nat, 7);
    }
    v
}

/// `pow10` is monotone in the exponent.
proof fn lemma_pow10_le(a: nat, b: nat)
    requires
        a <= b,
    ensures
        pow10(a) <= pow10(b),
    decreases b,
{
    if a < b {
        lemma_pow10_le(a, (b - 1) as nat);
        lemma_pow10_pos((b - 1) as nat);
    }
}

/// Parse a fixed-point decimal with the grammar of [`parse_fixed_spec`]:
/// an optional minus sign, up to seven integer digits, and an optional
/// fraction of which the first two digits are kept.
pub fn parse_fixed(s: &str) -> (r: Option<i64>)
    ensures
        r is Some == parse_fixed_spec(s@) is Some,
        r is Some ==> Some(r->0 as int) == parse_fixed_spec(s@) && fixed_ok(r->0 as int),
{
    proof {
        lemma_parse_fixed_bound(s@);
    }
    let len = s.unicode_len();
    let neg = len > 0 && s.get_char(0) == '-';
    let pos: usize = if neg {
        1
    } else {
        0
    };
    let ghost body = s@.skip(pos as int);
    proof {
        assert(forall|j: int| 0 <= j < body.len() ==> #[trigger] body[j] == s@[j + pos]);
    }
    match parse_ufixed_at(s, pos) {
        Some(v) => {
            proof {
                if neg {
                    assert(parse_fixed_spec(s@) == Some(-(v as int)));
                } else {
                    assert(s@.skip(0) =~= s@);
                    if s@.len() > 0 && s@[0] == '-' {
                        assert(false);
                    }
                }
            }
            if neg {
                Some(-v)
            } else {
                Some(v as i64)
            }
        },
        None => {
            proof {
                if !neg {
                    assert(s@.skip(0) =~= s@);
                }
            }
            None
        },
    }
}

/// Parse the unsigned fixed-point decimal that starts at `pos`.
fn parse_ufixed_at(s: &str, pos: usize) -> (r: Option<i64>)
    requires
        pos <= s@.len(),
    ensures
        r is Some == parse_ufixed_spec(s@.skip(pos as int)) is Some,
        r is Some ==> Some(r->0 as int) == parse_ufixed_spec(s@.skip(pos as int)) && 0 <= r->0
            <= MAX_FIXED,
{
    let ghost body = s@.skip(pos as int);
    proof {
        lemma_parse_ufixed_bound(body);
        assert(forall|j: int| 0 <= j < body.len() ==> #[trigger] body[j] == s@[j + pos]);
    }
    let len = s.unicode_len();
    let dot = find_char_from(s, pos, '.');
    match dot {
        Some(i) => {
            proof {
                assert(body[i - pos] == '.');
                assert(forall|j: int| 0 <= j < i - pos ==> #[trigger] body[j] != '.');
                lemma_find_char_at(body, '.', i - pos);
            }
            let ghost ip = body.take(i - pos);
            let ghost fp = body.skip(i - pos + 1);
            proof {
                assert(ip =~= s@.subrange(pos as int, i as int));
                assert(fp =~= s@.subrange(i + 1, s@.len() as int));
            }
            if i - pos < 1 || i - pos > 7 {
                return None;
            }
            if i + 1 >= len {
                return None;
            }
            if !check_digits(s, pos, i) {
                return None;
            }
            if !check_digits(s, i + 1, len) {
                return None;
            }
            let ipv = digits_value(s, pos, i);
            let d1 = digit_of(s.get_char(i + 1)).unwrap();
            let d2: u8 = if i + 2 < len {
                digit_of(s.get_char(i + 2)).unwrap()
            } else {
                0
            };
            proof {
                assert(fp[0] == s@[i + 1]);
                if fp.len() >= 2 {
                    assert(fp[1] == s@[i + 2]);
                }
                assert(frac_val(fp) == d1 as int * 10 + d2 as int);
            }
            Some((ipv as i64) * 100 + (d1 as i64) * 10 + (d2 as i64))
        },
        None => {
            proof {
                lemma_find_char_none(body, '.');
            }
            if len - pos < 1 || len - pos > 7 {
                return None;
            }
            if !check_digits(s, pos, len) {
                return None;
            }
            proof {
                assert(body =~= s@.subrange(pos as int, len as int));
            }
            let v = digits_value(s, pos, len);
            Some((v as i64) * 100)
        },
    }
}

/// Decimal representation of an unsigned machine integer.
pub fn u64_to_string(n: u64) -> (s: String)
    ensures
        s@ == u_dec(n as nat),
    decreases n,
{
    if n < 10 {
        let s = String::from_str(digit_str(n as u8));
        proof {
            assert(s@ =~= u_dec(n as nat));
        }
        s
    } else {
        let mut s = u64_to_string(n / 10);
        s.append(digit_str((n % 10) as u8));
        proof {
            assert(s@ =~= u_dec(n as nat));
        }
        s
    }
}

pub open spec fn abs_i(v: int) -> int {
    if v < 0 {
        -v
    } else {
        v
    }
}

/// Canonical store form: optional minus sign, integer digits, a dot and
/// exactly two fraction digits ("25.00", "-3.50").
pub open spec fn fmt_fixed2_spec(v: int) -> Seq<char> {
    let a = abs_i(v);
    let f = a % 100;
    (if v < 0 {
        "-"@
    } else {
        Seq::<char>::empty()
    }) + u_dec((a / 100) as nat) + "."@ + seq![digit_char(f / 10), digit_char(f % 10)]
}

/// One fraction digit, magnitude truncated towards zero ("16.0", "-0.2").
pub open spec fn fmt_fixed1_spec(v: int) -> Seq<char> {
    let a = abs_i(v);
    (if v < 0 {
        "-"@
    } else {
        Seq::<char>::empty()
    }) + u_dec((a / 100) as nat) + "."@ + seq![digit_char((a % 100) / 10)]
}

/// Whole degrees only, truncated towards zero ("22", "-3"; "0" when the
/// magnitude is below one).
pub open spec fn fmt_fixed_int_spec(v: int) -> Seq<char> {
    let q = abs_i(v) / 100;
    if v < 0 && q > 0 {
        "-"@ + u_dec(q as nat)
    } else {
        u_dec(q as nat)
    }
}

/// Shortest exact form: fraction digits only while they are non-zero
/// ("30", "30.5", "-3.25").
pub open spec fn fmt_fixed_min_spec(v: int) -> Seq<char> {
    let a = abs_i(v);
    let f = a % 100;
    (if v < 0 {
        "-"@
    } else {
        Seq::<char>::empty()
    }) + u_dec((a / 100) as nat) + (if f == 0 {
        Seq::<char>::empty()
    } else if f % 10 == 0 {
        "."@ + seq![digit_char(f / 10)]
    } else {
        "."@ + seq![digit_char(f / 10), digit_char(f % 10)]
    })
}

/// Explicit sign and one fraction digit ("+2.0", "-0.5", "+0.0").
pub open spec fn fmt_signed1_spec(v: int) -> Seq<char> {
    (if v < 0 {
        "-"@
    } else {
        "+"@
    }) + u_dec((abs_i(v) / 100) as nat) + "."@ + seq![digit_char((abs_i(v) % 100) / 10)]
}

/// Magnitude of an in-range fixed-point value, as a machine integer.
fn abs_fixed(v: i64) -> (a: u64)
    requires
        v > i64::MIN,
    ensures
        a as int == abs_i(v as int),
{
    if v < 0 {
        (-v) as u64
    } else {
        v as u64
    }
}

/// Render in the canonical two-fraction-digit store form.
pub fn fmt_fixed2(v: i64) -> (s: String)
    requires
        fixed_ok(v as int),
    ensures
        s@ == fmt_fixed2_spec(v as int),
{
    let a = abs_fixed(v);
    let mut s = if v < 0 {
        String::from_str("-")
    } else {
        String::new()
    };
    let ip = u64_to_string(a / 100);
    s.append(ip.as_str());
    s.append(".");
    let f = a % 100;
    s.append(digit_str((f / 10) as u8));
    s.append(digit_str((f % 10) as u8));
    proof {
        assert(s@ =~= fmt_fixed2_spec(v as int));
    }
    s
}

/// Render with one fraction digit.
pub fn fmt_fixed1(v: i64) -> (s: String)
    requires
        v > i64::MIN,
    ensures
        s@ == fmt_fixed1_spec(v as int),
{
    let a = abs_fixed(v);
    let mut s = if v < 0 {
        String::from_str("-")
    } else {
        String::new()
    };
    let ip = u64_to_string(a / 100);
    s.append(ip.as_str());
    s.append(".");
    s.append(digit_str(((a % 100) / 10) as u8));
    proof {
        assert(s@ =~= fmt_fixed1_spec(v as int));
    }
    s
}

/// Render whole degrees, truncated towards zero.
pub fn fmt_fixed_int(v: i64) -> (s: String)
    requires
        v > i64::MIN,
    ensures
        s@ == fmt_fixed_int_spec(v as int),
{
    let a = abs_fixed(v);
    let q = a / 100;
    let mut s = if v < 0 && q > 0 {
        String::from_str("-")
    } else {
        String::new()
    };
    let ip = u64_to_string(q);
    s.append(ip.as_str());
    proof {
        assert(s@ =~= fmt_fixed_int_spec(v as int));
    }
    s
}

/// Render in the shortest exact form.
pub fn fmt_fixed_min(v: i64) -> (s: String)
    requires
        v > i64::MIN,
    ensures
        s@ == fmt_fixed_min_spec(v as int),
{
    let a = abs_fixed(v);
    let mut s = if v < 0 {
        String::from_str("-")
    } else {
        String::new()
    };
    let ip = u64_to_string(a / 100);
    s.append(ip.as_str());
    let f = a % 100;
    if f != 0 {
        s.append(".");
        s.append(digit_str((f / 10) as u8));
        if f % 10 != 0 {
            s.append(digit_str((f % 10) as u8));
        }
    }
    proof {
        assert(s@ =~= fmt_fixed_min_spec(v as int));
    }
    s
}

/// Render with an explicit sign and one fraction digit.
pub fn fmt_signed1(v: i64) -> (s: String)
    requires
        v > i64::MIN,
    ensures
        s@ == fmt_signed1_spec(v as int),
{
    let a = abs_fixed(v);
    let mut s = if v < 0 {
        String::from_str("-")
    } else {
        String::from_str("+")
    };
    let ip = u64_to_string(a / 100);
    s.append(ip.as_str());
    s.append(".");
    s.append(digit_str(((a % 100) / 10) as u8));
    proof {
        assert(s@ =~= fmt_signed1_spec(v as int));
    }
    s
}

/// Round trip: parsing the canonical store form of an in-range value gives
/// the value back.  The history store's row format relies on this law.
pub proof fn lemma_fixed_round_trip(v: int)
    requires
        fixed_ok(v),
    ensures
        parse_fixed_spec(fmt_fixed2_spec(v)) == Some(v),
{
    reveal_strlit("-");
    reveal_strlit(".");
    let a = abs_i(v);
    let q = (a / 100) as nat;
    let f = a % 100;
    lemma_pow10_7();
    lemma_u_dec_digits(q);
    lemma_u_dec_len(q, 7);
    let d = u_dec(q);
    let fp = seq![digit_char(f / 10), digit_char(f % 10)];
    let body = d + "."@ + fp;
    lemma_digit_char_val(f / 10);
    lemma_digit_char_val(f % 10);
    assert(body[d.len() as int] == '.');
    assert(forall|j: int| 0 <= j < d.len() ==> #[trigger] body[j] == d[j]);
    assert(forall|j: int| 0 <= j < d.len() ==> is_digit(#[trigger] body[j]));
    assert(forall|j: int| 0 <= j < d.len() ==> #[trigger] body[j] != '.');
    lemma_find_char_at(body, '.', d.len() as int);
    let ip2 = body.take(d.len() as int);
    let fp2 = body.skip(d.len() as int + 1);
    assert(ip2 =~= d);
    assert(fp2 =~= fp);
    assert(all_digits(fp)) by {
        assert(is_digit(fp[0]) && is_digit(fp[1]));
        assert(forall|j: int| 0 <= j < fp.len() ==> #[trigger] is_digit(fp[j])) by {
            assert(fp.len() == 2);
            assert(is_digit(fp[0]) && is_digit(fp[1]));
        }
    }
    assert(frac_val(fp) == (f / 10) * 10 + f % 10);
    vstd::arithmetic::div_mod::lemma_fundamental_div_mod(f, 10);
    assert(frac_val(fp) == f);
    vstd::arithmetic::div_mod::lemma_fundamental_div_mod(a, 100);
    assert(digits_val(body.take(d.len() as int)) * 100 + frac_val(body.skip(d.len() as int + 1))
        == a);
    assert(parse_ufixed_spec(body) == Some(a));
    if v < 0 {
        let full = "-"@ + body;
        assert(fmt_fixed2_spec(v) =~= full);
        assert(full[0] == '-');
        assert(full.skip(1) =~= body);
        assert(parse_fixed_spec(full) == Some(-a));
    } else {
        let full = Seq::<char>::empty() + body;
        assert(fmt_fixed2_spec(v) =~= body);
        assert(body[0] == d[0]);
        assert(is_digit(body[0]));
        assert(body[0] != '-');
        assert(parse_fixed_spec(body) == Some(a));
    }
}

} // verus!
