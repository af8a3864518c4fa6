//! Calendar dates from Unix time, and zero-padded decimal numbers.
use vstd::prelude::*;
use crate::slug::{decimal, decimal_string};
use crate::text::push_char;

verus! {

/// `s` padded on the left with zeros to `width` characters.
pub open spec fn zero_pad(s: Seq<char>, width: nat) -> Seq<char> {
    if s.len() >= width { s } else { Seq::new((width - s.len()) as nat, |i: int| '0') + s }
}

/// `n` in decimal, zero-padded to `width` digits (`{:0width}`).
pub fn padded(n: u64, width: usize) -> (r: String)
    ensures
        r@ == zero_pad(decimal(n as nat), width as nat),
{
    let d = decimal_string(n as u128);
    let len = d.unicode_len();
    let zeros: usize = if len < width { width - len } else { 0 };
    let mut r = String::new();
    let mut k: usize = 0;
    while k < zeros
        invariant
            k <= zeros,
            r@ == Seq::new(k as nat, |i: int| '0'),
        decreases zeros - k,
    {
        push_char(&mut r, '0');
        proof { assert(r@ =~= Seq::new((k + 1) as nat, |i: int| '0')); }
        k = k + 1;
    }
    r.append(d.as_str());
    proof {
        if len >= width {
            assert(r@ =~= d@);
        }
    }
    r
}

/// The civil date of a day count since 1970-01-01, by the Julian day
/// number algorithm: (year, month, day).
pub open spec fn civil_of_days(days: int) -> (int, int, int) {
    let jd = days + 2440588;
    let a = jd + 32044;
    let b = (4 * a + 3) / 146097;
    let c = a - (146097 * b) / 4;
    let d = (4 * c + 3) / 1461;
    let e = c - (1461 * d) / 4;
    let m = (5 * e + 2) / 153;
    let day = e - (153 * m + 2) / 5 + 1;
    let month = m + 3 - 12 * (m / 10);
    let year = 100 * b + d - 4800 + m / 10;
    (year, month, day)
}

/// The date `YYYY-MM-DD` of a Unix time in milliseconds.
pub open spec fn date_text(ms: u64) -> Seq<char> {
    let (y, m, d) = civil_of_days((ms / 1000 / 86400) as int);
    zero_pad(decimal(y as nat), 4) + "-"@ + zero_pad(decimal(m as nat), 2) + "-"@ + zero_pad(decimal(d as nat), 2)
}

/// The date `YYYY-MM-DD` of a Unix time in milliseconds.
pub fn format_date(ms: u64) -> (r: String)
    ensures
        r@ == date_text(ms),
{
    let days = ms / 1000 / 86400;
    assert(days <= 0xffff_ffff_ffff_ffffu64 / 86400000) by (nonlinear_arith)
        requires days == ms / 1000 / 86400;
    let jd = days + 2440588;
    let a = jd + 32044;
    assert(4 * a + 3 <= 0xffff_ffff_ffff_ffffu64) by (nonlinear_arith)
        requires a <= 0xffff_ffff_ffff_ffffu64 / 86400000 + 2472632;
    let b = (4 * a + 3) / 146097;
    assert(146097 * b <= 4 * a + 3) by (nonlinear_arith)
        requires b == (4 * a + 3) / 146097;
    assert((146097 * b) / 4 <= a) by (nonlinear_arith)
        requires 146097 * b <= 4 * a + 3;
    let c = a - (146097 * b) / 4;
    assert(c < 36525 + 36525) by (nonlinear_arith)
        requires c == a - (146097 * b) / 4, b == (4 * a + 3) / 146097;
    let d = (4 * c + 3) / 1461;
    assert(1461 * d <= 4 * c + 3) by (nonlinear_arith)
        requires d == (4 * c + 3) / 1461;
    assert((1461 * d) / 4 <= c) by (nonlinear_arith)
        requires 1461 * d <= 4 * c + 3;
    let e = c - (1461 * d) / 4;
    assert(e < 367) by (nonlinear_arith)
        requires e == c - (1461 * d) / 4, d == (4 * c + 3) / 1461;
    let m = (5 * e + 2) / 153;
    assert(153 * m <= 5 * e + 2) by (nonlinear_arith)
        requires m == (5 * e + 2) / 153;
    assert((153 * m + 2) / 5 <= e) by (nonlinear_arith)
        requires 153 * m <= 5 * e + 2;
    assert(m <= 11);
    let day = e - (153 * m + 2) / 5 + 1;
    let month = m + 3 - 12 * (m / 10);
    assert(4 * a + 3 < 146097 * (b + 1)) by (nonlinear_arith)
        requires b == (4 * a + 3) / 146097;
    assert(b >= 67);
    let year = 100 * b + d - 4800 + m / 10;
    let mut r = padded(year, 4);
    r.append("-");
    let mm = padded(month, 2);
    r.append(mm.as_str());
    r.append("-");
    let dd = padded(day, 2);
    r.append(dd.as_str());
    r
}

} // verus!
