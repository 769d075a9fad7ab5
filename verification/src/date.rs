//! Calendar dates as plain year / month / day values, with proleptic
//! Gregorian validity: this is what the record format stores and what the
//! codec validates.

use vstd::prelude::*;
use vstd::arithmetic::div_mod::{
    lemma_fundamental_div_mod, lemma_mod_mod, lemma_mod_multiples_vanish, lemma_small_mod,
};

verus! {

/// A calendar date with no time component.
#[derive(Clone, Copy, Debug, PartialEq, Eq, Structural)]
pub struct Date {
    pub year: i32,
    pub month: u32,
    pub day: u32,
}

/// Proleptic Gregorian leap-year rule.
pub open spec fn spec_is_leap(y: int) -> bool {
    y % 4 == 0 && (y % 100 != 0 || y % 400 == 0)
}

pub open spec fn spec_days_in_month(y: int, m: int) -> int {
    if m == 2 {
        if spec_is_leap(y) {
            29
        } else {
            28
        }
    } else if m == 4 || m == 6 || m == 9 || m == 11 {
        30
    } else {
        31
    }
}

pub open spec fn spec_valid_date(y: int, m: int, d: int) -> bool {
    1 <= m <= 12 && 1 <= d <= spec_days_in_month(y, m)
}

/// The year reduced modulo 400, computed without signed remainders.
fn year_mod_400(y: i32) -> (r: u32)
    ensures
        r as int == (y as int) % 400,
{
    if y >= 0 {
        let p: u64 = y as u64;
        let r: u64 = p % 400;
        proof {
            assert(p as int == y as int);
        }
        r as u32
    } else {
        let p: u64 = (-(y as i64)) as u64;
        let m: u64 = p % 400;
        proof {
            let yi = y as int;
            let pi = p as int;
            assert(pi == -yi);
            lemma_fundamental_div_mod(pi, 400);
            let q = pi / 400;
            if m == 0 {
                assert(yi == 400 * (-q));
                lemma_mod_multiples_vanish(-q, 0, 400);
                assert((400 * (-q) + 0) % 400 == 0int % 400);
                lemma_small_mod(0, 400);
            } else {
                assert(yi == 400 * (-q - 1) + (400 - m));
                lemma_mod_multiples_vanish(-q - 1, 400 - m, 400);
                lemma_small_mod((400 - m) as nat, 400);
            }
        }
        if m == 0 {
            0
        } else {
            (400 - m) as u32
        }
    }
}

pub fn is_leap_year(y: i32) -> (r: bool)
    ensures
        r == spec_is_leap(y as int),
{
    let r400 = year_mod_400(y);
    proof {
        let yi = y as int;
        lemma_mod_mod(yi, 4, 100);
        assert((yi % 400) % 4 == yi % 4);
        lemma_mod_mod(yi, 100, 4);
        assert((yi % 400) % 100 == yi % 100);
    }
    r400 % 4 == 0 && (r400 % 100 != 0 || r400 == 0)
}

pub fn days_in_month(y: i32, m: u32) -> (r: u32)
    requires
        1 <= m <= 12,
    ensures
        r as int == spec_days_in_month(y as int, m as int),
{
    if m == 2 {
        if is_leap_year(y) {
            29
        } else {
            28
        }
    } else if m == 4 || m == 6 || m == 9 || m == 11 {
        30
    } else {
        31
    }
}

impl Date {
    pub open spec fn wf(self) -> bool {
        spec_valid_date(self.year as int, self.month as int, self.day as int)
    }

    /// Builds a date, accepting exactly the valid calendar dates.
    pub fn new(year: i32, month: u32, day: u32) -> (r: Option<Date>)
        ensures
            match r {
                Some(d) => d == (Date { year, month, day }) && d.wf(),
                None => !spec_valid_date(year as int, month as int, day as int),
            },
    {
        if month < 1 || month > 12 {
            return None;
        }
        if day < 1 || day > days_in_month(year, month) {
            return None;
        }
        Some(Date { year, month, day })
    }
}

} // verus!
