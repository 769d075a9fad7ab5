//! The record codec: the strict four-field text grammar for one task, its
//! encoder, its decoder, and the proof that they round-trip.
//!
//! A record reads
//! ```text
//! title: "<title>"
//! priority: <decimal>
//! due_date: <year>/<month>/<day>
//! info: "<free text>"
//! ```
//! Decoding skips incidental whitespace before each literal token (and after
//! the `priority: ` and `due_date: ` tokens), captures the quoted fields
//! verbatim up to the next quote, takes maximal digit runs for the numbers
//! with strict range checks, and rejects the record if the three date
//! numbers do not form a real calendar date. Text after the closing quote of
//! the notes field is ignored.

use vstd::prelude::*;
use crate::date::{Date, spec_valid_date};
use crate::numerals::{
    all_digits, dec_digits, digit_val, digits_val, is_digit, lemma_dec_digits_wf,
    lemma_digits_val_extend, lemma_digits_val_prefix, render_u64,
};
use crate::task::{Task, TaskView};
use vstd::arithmetic::div_mod::lemma_fundamental_div_mod;

verus! {

pub open spec fn title_lit() -> Seq<char> {
    seq!['t', 'i', 't', 'l', 'e', ':', ' ', '"']
}

pub open spec fn priority_lit() -> Seq<char> {
    seq!['p', 'r', 'i', 'o', 'r', 'i', 't', 'y', ':', ' ']
}

pub open spec fn due_lit() -> Seq<char> {
    seq!['d', 'u', 'e', '_', 'd', 'a', 't', 'e', ':', ' ']
}

pub open spec fn info_lit() -> Seq<char> {
    seq!['i', 'n', 'f', 'o', ':', ' ', '"']
}

pub open spec fn is_space(c: char) -> bool {
    c == ' ' || c == '\t' || c == '\n' || c == '\r'
}

/// The first position at or after `i` holding no whitespace, or the end.
pub open spec fn spec_skip_ws(s: Seq<char>, i: int) -> int
    decreases s.len() - i,
{
    if 0 <= i < s.len() && is_space(s[i]) {
        spec_skip_ws(s, i + 1)
    } else {
        i
    }
}

/// The first position at or after `i` holding a quote, or the end.
pub open spec fn spec_find_quote(s: Seq<char>, i: int) -> int
    decreases s.len() - i,
{
    if 0 <= i < s.len() {
        if s[i] == '"' {
            i
        } else {
            spec_find_quote(s, i + 1)
        }
    } else {
        i
    }
}

/// The end of the maximal digit run starting at `i`.
pub open spec fn spec_digits_end(s: Seq<char>, i: int) -> int
    decreases s.len() - i,
{
    if 0 <= i < s.len() && is_digit(s[i]) {
        spec_digits_end(s, i + 1)
    } else {
        i
    }
}

/// The literal `lit` occurs in `s` at position `i`.
pub open spec fn spec_match_lit(s: Seq<char>, i: int, lit: Seq<char>) -> bool {
    0 <= i && i + lit.len() <= s.len() && s.subrange(i, i + lit.len()) == lit
}

pub proof fn lemma_skip_ws_bounds(s: Seq<char>, i: int)
    requires
        0 <= i <= s.len(),
    ensures
        i <= spec_skip_ws(s, i) <= s.len(),
    decreases s.len() - i,
{
    if i < s.len() && is_space(s[i]) {
        lemma_skip_ws_bounds(s, i + 1);
    }
}

/// Pins down `spec_skip_ws` from a description of the region it crosses.
pub proof fn lemma_skip_ws_exact(s: Seq<char>, i: int, j: int)
    requires
        0 <= i <= j <= s.len(),
        forall|k: int| i <= k < j ==> is_space(#[trigger] s[k]),
        j == s.len() || !is_space(s[j]),
    ensures
        spec_skip_ws(s, i) == j,
    decreases j - i,
{
    if i < j {
        lemma_skip_ws_exact(s, i + 1, j);
    }
}

/// Pins down `spec_find_quote` from a description of the region it crosses.
pub proof fn lemma_find_quote_exact(s: Seq<char>, i: int, j: int)
    requires
        0 <= i <= j < s.len(),
        forall|k: int| i <= k < j ==> #[trigger] s[k] != '"',
        s[j] == '"',
    ensures
        spec_find_quote(s, i) == j,
    decreases j - i,
{
    if i < j {
        lemma_find_quote_exact(s, i + 1, j);
    }
}

/// Pins down `spec_digits_end` from a description of the run it crosses.
pub proof fn lemma_digits_end_exact(s: Seq<char>, i: int, j: int)
    requires
        0 <= i <= j <= s.len(),
        forall|k: int| i <= k < j ==> is_digit(#[trigger] s[k]),
        j == s.len() || !is_digit(s[j]),
    ensures
        spec_digits_end(s, i) == j,
    decreases j - i,
{
    if i < j {
        lemma_digits_end_exact(s, i + 1, j);
    }
}

pub proof fn lemma_find_quote_bounds(s: Seq<char>, i: int)
    requires
        0 <= i <= s.len(),
    ensures
        i <= spec_find_quote(s, i) <= s.len(),
    decreases s.len() - i,
{
    if i < s.len() && s[i] != '"' {
        lemma_find_quote_bounds(s, i + 1);
    }
}

pub proof fn lemma_digits_end_bounds(s: Seq<char>, i: int)
    requires
        0 <= i <= s.len(),
    ensures
        i <= spec_digits_end(s, i) <= s.len(),
    decreases s.len() - i,
{
    if i < s.len() && is_digit(s[i]) {
        lemma_digits_end_bounds(s, i + 1);
    }
}

/// Everything before the first quote found is no quote.
pub proof fn lemma_find_quote_region(s: Seq<char>, i: int)
    requires
        0 <= i,
    ensures
        forall|k: int| i <= k < spec_find_quote(s, i) ==> #[trigger] s[k] != '"',
    decreases s.len() - i,
{
    if i < s.len() && s[i] != '"' {
        lemma_find_quote_region(s, i + 1);
    }
}

/// Everything inside a maximal digit run is a digit.
pub proof fn lemma_digits_end_region(s: Seq<char>, i: int)
    requires
        0 <= i,
    ensures
        forall|k: int| i <= k < spec_digits_end(s, i) ==> is_digit(#[trigger] s[k]),
    decreases s.len() - i,
{
    if i < s.len() && is_digit(s[i]) {
        lemma_digits_end_region(s, i + 1);
    }
}

fn skip_ws(s: &str, i: usize) -> (j: usize)
    requires
        i <= s@.len(),
    ensures
        j as int == spec_skip_ws(s@, i as int),
        i <= j <= s@.len(),
{
    let n = s.unicode_len();
    let mut j = i;
    while j < n
        invariant
            i <= j <= n,
            n == s@.len(),
            spec_skip_ws(s@, i as int) == spec_skip_ws(s@, j as int),
        decreases n - j,
    {
        let c = s.get_char(j);
        if !(c == ' ' || c == '\t' || c == '\n' || c == '\r') {
            proof {
                assert(!is_space(s@[j as int]));
            }
            return j;
        }
        proof {
            assert(spec_skip_ws(s@, j as int) == spec_skip_ws(s@, j + 1));
        }
        j += 1;
    }
    j
}

fn find_quote(s: &str, i: usize) -> (j: usize)
    requires
        i <= s@.len(),
    ensures
        j as int == spec_find_quote(s@, i as int),
        i <= j <= s@.len(),
        j < s@.len() ==> s@[j as int] == '"',
        forall|k: int| i <= k < j ==> #[trigger] s@[k] != '"',
{
    let n = s.unicode_len();
    let mut j = i;
    while j < n
        invariant
            i <= j <= n,
            n == s@.len(),
            spec_find_quote(s@, i as int) == spec_find_quote(s@, j as int),
            forall|k: int| i <= k < j ==> #[trigger] s@[k] != '"',
        decreases n - j,
    {
        let c = s.get_char(j);
        if c == '"' {
            return j;
        }
        proof {
            assert(spec_find_quote(s@, j as int) == spec_find_quote(s@, j + 1));
        }
        j += 1;
    }
    j
}

fn digits_end(s: &str, i: usize) -> (e: usize)
    requires
        i <= s@.len(),
    ensures
        e as int == spec_digits_end(s@, i as int),
        i <= e <= s@.len(),
        forall|k: int| i <= k < e ==> is_digit(#[trigger] s@[k]),
{
    let n = s.unicode_len();
    let mut j = i;
    while j < n
        invariant
            i <= j <= n,
            n == s@.len(),
            spec_digits_end(s@, i as int) == spec_digits_end(s@, j as int),
            forall|k: int| i <= k < j ==> is_digit(#[trigger] s@[k]),
        decreases n - j,
    {
        let c = s.get_char(j);
        let cv = c as u32;
        if !(48 <= cv && cv <= 57) {
            proof {
                assert(!is_digit(s@[j as int]));
            }
            return j;
        }
        proof {
            assert(is_digit(s@[j as int]));
            assert(spec_digits_end(s@, j as int) == spec_digits_end(s@, j + 1));
        }
        j += 1;
    }
    j
}

fn match_lit(s: &str, i: usize, lit: &str) -> (r: Option<usize>)
    requires
        i <= s@.len(),
    ensures
        match r {
            Some(j) => spec_match_lit(s@, i as int, lit@) && j as int == i + lit@.len(),
            None => !spec_match_lit(s@, i as int, lit@),
        },
{
    let n = s.unicode_len();
    let ln = lit.unicode_len();
    if n - i < ln {
        return None;
    }
    let mut k: usize = 0;
    while k < ln
        invariant
            k <= ln,
            i + ln <= n,
            n == s@.len(),
            ln == lit@.len(),
            forall|t: int| 0 <= t < k ==> s@[i + t] == lit@[t],
        decreases ln - k,
    {
        if s.get_char(i + k) != lit.get_char(k) {
            proof {
                assert(s@.subrange(i as int, i + ln as int)[k as int] == s@[i + k]);
            }
            return None;
        }
        k += 1;
    }
    proof {
        assert(s@.subrange(i as int, i + ln as int) =~= lit@);
    }
    Some(i + ln)
}

/// Reads the maximal digit run at `i`; fails on an empty run or a value
/// above `max`.
fn parse_num(s: &str, i: usize, max: u64) -> (r: Option<(u64, usize)>)
    requires
        i <= s@.len(),
        max <= 0xffff_ffff,
    ensures
        ({
            let e = spec_digits_end(s@, i as int);
            let v = digits_val(s@.subrange(i as int, e));
            match r {
                Some(p) => p.1 as int == e && i < e && p.1 <= s@.len() && p.0 as int == v
                    && v <= max,
                None => e == i || v > max,
            }
        }),
{
    let e = digits_end(s, i);
    if e == i {
        return None;
    }
    proof {
        assert(all_digits(s@.subrange(i as int, e as int)));
    }
    let ghost run = s@.subrange(i as int, e as int);
    let mut v: u64 = 0;
    let mut k = i;
    while k < e
        invariant
            i <= k <= e <= s@.len(),
            e as int == spec_digits_end(s@, i as int),
            forall|t: int| i <= t < e ==> is_digit(#[trigger] s@[t]),
            run == s@.subrange(i as int, e as int),
            all_digits(run),
            v as int == digits_val(s@.subrange(i as int, k as int)),
            v <= max,
            max <= 0xffff_ffff,
        decreases e - k,
    {
        let c = s.get_char(k);
        let cv = c as u32;
        proof {
            assert(is_digit(s@[k as int]));
        }
        let d: u64 = (cv - 48) as u64;
        proof {
            assert(d as int == digit_val(s@[k as int]));
            lemma_digits_val_extend(s@, i as int, k as int);
        }
        if v > max / 10 || v * 10 + d > max {
            proof {
                lemma_fundamental_div_mod(max as int, 10);
                assert(v * 10 + d > max);
                assert(digits_val(s@.subrange(i as int, k + 1)) > max);
                lemma_digits_val_prefix(run, k + 1 - i);
                assert(run.subrange(0, k + 1 - i) =~= s@.subrange(i as int, k + 1));
                assert(digits_val(s@.subrange(i as int, e as int)) > max);
            }
            return None;
        }
        v = v * 10 + d;
        k += 1;
    }
    proof {
        assert(s@.subrange(i as int, e as int) == run);
    }
    Some((v, e))
}

/// What decoding a record text yields: `Some` exactly when the text matches
/// the grammar, every number is in range, and the date is a real calendar
/// date; the captured fields otherwise come back verbatim.
pub open spec fn spec_decode(s: Seq<char>) -> Option<TaskView> {
    let t0 = spec_skip_ws(s, 0);
    if !spec_match_lit(s, t0, title_lit()) {
        None
    } else {
        let tstart = t0 + title_lit().len();
        let tend = spec_find_quote(s, tstart);
        if tend >= s.len() {
            None
        } else {
            let title = s.subrange(tstart, tend);
            let p0 = spec_skip_ws(s, tend + 1);
            if !spec_match_lit(s, p0, priority_lit()) {
                None
            } else {
                let pstart = spec_skip_ws(s, p0 + priority_lit().len());
                let pend = spec_digits_end(s, pstart);
                let pval = digits_val(s.subrange(pstart, pend));
                if pend == pstart || pval > 255 {
                    None
                } else {
                    let d0 = spec_skip_ws(s, pend);
                    if !spec_match_lit(s, d0, due_lit()) {
                        None
                    } else {
                        let ystart = spec_skip_ws(s, d0 + due_lit().len());
                        let yend = spec_digits_end(s, ystart);
                        let yval = digits_val(s.subrange(ystart, yend));
                        if yend == ystart || yval > 0x7fff_ffff {
                            None
                        } else if !(yend < s.len() && s[yend] == '/') {
                            None
                        } else {
                            let mstart = yend + 1;
                            let mend = spec_digits_end(s, mstart);
                            let mval = digits_val(s.subrange(mstart, mend));
                            if mend == mstart || mval > 0xffff_ffff {
                                None
                            } else if !(mend < s.len() && s[mend] == '/') {
                                None
                            } else {
                                let dstart = mend + 1;
                                let dend = spec_digits_end(s, dstart);
                                let dval = digits_val(s.subrange(dstart, dend));
                                if dend == dstart || dval > 0xffff_ffff {
                                    None
                                } else {
                                    let i0 = spec_skip_ws(s, dend);
                                    if !spec_match_lit(s, i0, info_lit()) {
                                        None
                                    } else {
                                        let istart = i0 + info_lit().len();
                                        let iend = spec_find_quote(s, istart);
                                        if iend >= s.len() {
                                            None
                                        } else if !spec_valid_date(yval, mval, dval) {
                                            None
                                        } else {
                                            Some(TaskView {
                                                title,
                                                priority: pval as u8,
                                                due_date: Date {
                                                    year: yval as i32,
                                                    month: mval as u32,
                                                    day: dval as u32,
                                                },
                                                info: s.subrange(istart, iend),
                                            })
                                        }
                                    }
                                }
                            }
                        }
                    }
                }
            }
        }
    }
}

/// Decodes one record text into a task, failing on any departure from the
/// grammar, on an out-of-range number, and on an impossible calendar date.
pub fn decode(s: &str) -> (r: Option<Task>)
    ensures
        match spec_decode(s@) {
            Some(tv) => r matches Some(t) && t@ == tv,
            None => r is None,
        },
{
    proof {
        reveal_strlit("title: \"");
        reveal_strlit("priority: ");
        reveal_strlit("due_date: ");
        reveal_strlit("info: \"");
        assert("title: \""@ =~= title_lit());
        assert("priority: "@ =~= priority_lit());
        assert("due_date: "@ =~= due_lit());
        assert("info: \""@ =~= info_lit());
    }
    let n = s.unicode_len();
    let t0 = skip_ws(s, 0);
    let tstart = match match_lit(s, t0, "title: \"") {
        Some(j) => j,
        None => {
            return None;
        },
    };
    let tend = find_quote(s, tstart);
    if tend >= n {
        return None;
    }
    let title = s.substring_char(tstart, tend).to_owned();
    let p0 = skip_ws(s, tend + 1);
    let pd = match match_lit(s, p0, "priority: ") {
        Some(j) => j,
        None => {
            return None;
        },
    };
    let pstart = skip_ws(s, pd);
    let (pval, pend) = match parse_num(s, pstart, 255) {
        Some(p) => p,
        None => {
            return None;
        },
    };
    let d0 = skip_ws(s, pend);
    let dd = match match_lit(s, d0, "due_date: ") {
        Some(j) => j,
        None => {
            return None;
        },
    };
    let ystart = skip_ws(s, dd);
    let (yval, yend) = match parse_num(s, ystart, 0x7fff_ffff) {
        Some(p) => p,
        None => {
            return None;
        },
    };
    if !(yend < n && s.get_char(yend) == '/') {
        return None;
    }
    let mstart = yend + 1;
    let (mval, mend) = match parse_num(s, mstart, 0xffff_ffff) {
        Some(p) => p,
        None => {
            return None;
        },
    };
    if !(mend < n && s.get_char(mend) == '/') {
        return None;
    }
    let dstart = mend + 1;
    let (dval, dend) = match parse_num(s, dstart, 0xffff_ffff) {
        Some(p) => p,
        None => {
            return None;
        },
    };
    let i0 = skip_ws(s, dend);
    let id = match match_lit(s, i0, "info: \"") {
        Some(j) => j,
        None => {
            return None;
        },
    };
    let istart = id;
    let iend = find_quote(s, istart);
    if iend >= n {
        return None;
    }
    let info = s.substring_char(istart, iend).to_owned();
    let due_date = match Date::new(yval as i32, mval as u32, dval as u32) {
        Some(d) => d,
        None => {
            return None;
        },
    };
    Some(Task { title, priority: pval as u8, due_date, info })
}

/// The year as it appears in a record: a minus sign for negative years,
/// then the decimal digits.
pub open spec fn spec_year_chars(y: int) -> Seq<char> {
    if y < 0 {
        seq!['-'] + dec_digits(-y)
    } else {
        dec_digits(y)
    }
}

/// The title line of a record, closing quote and newline included.
pub open spec fn seg_title(t: TaskView) -> Seq<char> {
    title_lit() + t.title + seq!['"', '\n']
}

/// The priority line of a record, newline included.
pub open spec fn seg_priority(t: TaskView) -> Seq<char> {
    priority_lit() + dec_digits(t.priority as int) + seq!['\n']
}

/// The due-date line of a record, newline included.
pub open spec fn seg_due(t: TaskView) -> Seq<char> {
    due_lit() + spec_year_chars(t.due_date.year as int) + seq!['/']
        + dec_digits(t.due_date.month as int) + seq!['/'] + dec_digits(t.due_date.day as int)
        + seq!['\n']
}

/// The notes field of a record, closing quote included.
pub open spec fn seg_info(t: TaskView) -> Seq<char> {
    info_lit() + t.info + seq!['"']
}

/// The canonical text of a task record.
pub open spec fn spec_encode(t: TaskView) -> Seq<char> {
    seg_title(t) + seg_priority(t) + seg_due(t) + seg_info(t)
}

impl Task {
    /// Renders the task in the canonical record layout. A quote character
    /// inside a text field goes out verbatim, with no escaping: a
    /// well-formed task holds none.
    pub fn encode(&self) -> (r: String)
        ensures
            r@ == spec_encode(self@),
    {
        proof {
            reveal_strlit("title: \"");
            reveal_strlit("\"\n");
            reveal_strlit("priority: ");
            reveal_strlit("\n");
            reveal_strlit("due_date: ");
            reveal_strlit("-");
            reveal_strlit("/");
            reveal_strlit("info: \"");
            reveal_strlit("\"");
            assert("title: \""@ =~= title_lit());
            assert("priority: "@ =~= priority_lit());
            assert("due_date: "@ =~= due_lit());
            assert("info: \""@ =~= info_lit());
            assert("\"\n"@ =~= seq!['"', '\n']);
            assert("\n"@ =~= seq!['\n']);
            assert("/"@ =~= seq!['/']);
            assert("\""@ =~= seq!['"']);
            assert("-"@ =~= seq!['-']);
        }
        let mut out = String::new();
        out.append("title: \"");
        out.append(self.title.as_str());
        out.append("\"\n");
        proof {
            assert(out@ =~= seg_title(self@));
        }
        out.append("priority: ");
        let p = render_u64(self.priority as u64);
        out.append(p.as_str());
        out.append("\n");
        proof {
            assert(out@ =~= seg_title(self@) + seg_priority(self@));
        }
        out.append("due_date: ");
        if self.due_date.year < 0 {
            out.append("-");
            let y = render_u64((-(self.due_date.year as i64)) as u64);
            out.append(y.as_str());
            proof {
                assert(seq!['-'] + dec_digits(-(self.due_date.year as int))
                    =~= spec_year_chars(self.due_date.year as int));
            }
        } else {
            let y = render_u64(self.due_date.year as u64);
            out.append(y.as_str());
        }
        out.append("/");
        let m = render_u64(self.due_date.month as u64);
        out.append(m.as_str());
        out.append("/");
        let d = render_u64(self.due_date.day as u64);
        out.append(d.as_str());
        out.append("\n");
        proof {
            assert(out@ =~= seg_title(self@) + seg_priority(self@) + seg_due(self@));
        }
        out.append("info: \"");
        out.append(self.info.as_str());
        out.append("\"");
        proof {
            assert(out@ =~= spec_encode(self@));
        }
        out
    }
}

/// Where each piece of a record for `t` stands in a text `s`: the literal
/// tokens, the captured fields, the digit runs and the separators, each at
/// its fixed offset. The canonical encoding of `t` has exactly this layout.
pub open spec fn spec_layout(t: TaskView, s: Seq<char>) -> bool {
    let pe = dec_digits(t.priority as int);
    let ye = dec_digits(t.due_date.year as int);
    let mo = dec_digits(t.due_date.month as int);
    let de = dec_digits(t.due_date.day as int);
    let o2 = 8 + t.title.len() as int;
    let o4 = o2 + 12;
    let o5 = o4 + pe.len() as int;
    let o7 = o5 + 11;
    let o8 = o7 + ye.len() as int;
    let o9 = o8 + 1;
    let o10 = o9 + mo.len() as int;
    let o11 = o10 + 1;
    let o12 = o11 + de.len() as int;
    let o14 = o12 + 8;
    let o15 = o14 + t.info.len() as int;
    &&& s.len() == o15 + 1
    &&& (forall|k: int| 0 <= k < 8 ==> s[k] == title_lit()[k])
    &&& (forall|k: int| 8 <= k < o2 ==> s[k] == t.title[k - 8])
    &&& s[o2] == '"'
    &&& s[o2 + 1] == '\n'
    &&& (forall|k: int| o4 - 10 <= k < o4 ==> s[k] == priority_lit()[k - (o4 - 10)])
    &&& (forall|k: int| o4 <= k < o5 ==> s[k] == pe[k - o4])
    &&& s[o5] == '\n'
    &&& (forall|k: int| o7 - 10 <= k < o7 ==> s[k] == due_lit()[k - (o7 - 10)])
    &&& (forall|k: int| o7 <= k < o8 ==> s[k] == ye[k - o7])
    &&& s[o8] == '/'
    &&& (forall|k: int| o9 <= k < o10 ==> s[k] == mo[k - o9])
    &&& s[o10] == '/'
    &&& (forall|k: int| o11 <= k < o12 ==> s[k] == de[k - o11])
    &&& s[o12] == '\n'
    &&& (forall|k: int| o14 - 7 <= k < o14 ==> s[k] == info_lit()[k - (o14 - 7)])
    &&& (forall|k: int| o14 <= k < o15 ==> s[k] == t.info[k - o14])
    &&& s[o15] == '"'
}

/// The canonical encoding of a task with a non-negative year places every
/// piece where `spec_layout` says.
#[verifier::rlimit(60)]
pub proof fn lemma_encode_layout(t: TaskView)
    requires
        0 <= t.due_date.year,
    ensures
        spec_layout(t, spec_encode(t)),
{
    let s = spec_encode(t);
    let pe = dec_digits(t.priority as int);
    let ye = dec_digits(t.due_date.year as int);
    let mo = dec_digits(t.due_date.month as int);
    let de = dec_digits(t.due_date.day as int);
    assert(spec_year_chars(t.due_date.year as int) == ye);
    let a = seg_title(t);
    let b = seg_priority(t);
    let c = seg_due(t);
    let d = seg_info(t);
    let tl = t.title.len() as int;
    let o2 = 8 + tl;
    let o4 = o2 + 12;
    let o5 = o4 + pe.len();
    let o7 = o5 + 11;
    let o8 = o7 + ye.len();
    let o9 = o8 + 1;
    let o10 = o9 + mo.len();
    let o11 = o10 + 1;
    let o12 = o11 + de.len();
    let o14 = o12 + 8;
    let o15 = o14 + t.info.len();
    assert(a.len() == o2 + 2);
    assert(b.len() == 10 + pe.len() + 1);
    assert(c.len() == 10 + ye.len() + 1 + mo.len() + 1 + de.len() + 1);
    assert(d.len() == 7 + t.info.len() + 1);
    assert(s.len() == a.len() + b.len() + c.len() + d.len());
    assert forall|k: int| 0 <= k < a.len() implies s[k] == a[k] by {}
    assert forall|k: int| 0 <= k < b.len() implies s[a.len() + k] == b[k] by {}
    assert forall|k: int| 0 <= k < c.len() implies s[a.len() + b.len() + k] == c[k] by {}
    assert forall|k: int| 0 <= k < d.len() implies s[a.len() + b.len() + c.len() + k] == d[k]
        by {}
    assert forall|k: int| 0 <= k < 8 implies s[k] == title_lit()[k] by {
        assert(a[k] == title_lit()[k]);
    }
    assert forall|k: int| 8 <= k < o2 implies s[k] == t.title[k - 8] by {
        assert(a[k] == t.title[k - 8]);
    }
    assert(a[o2] == '"');
    assert(a[o2 + 1] == '\n');
    assert forall|k: int| o4 - 10 <= k < o4 implies s[k] == priority_lit()[k - (o4 - 10)] by {
        assert(b[k - a.len()] == priority_lit()[k - (o4 - 10)]);
    }
    assert forall|k: int| o4 <= k < o5 implies s[k] == pe[k - o4] by {
        assert(b[k - a.len()] == pe[k - o4]);
    }
    assert(b[o5 - a.len()] == '\n');
    assert forall|k: int| o7 - 10 <= k < o7 implies s[k] == due_lit()[k - (o7 - 10)] by {
        assert(c[k - a.len() - b.len()] == due_lit()[k - (o7 - 10)]);
    }
    assert forall|k: int| o7 <= k < o8 implies s[k] == ye[k - o7] by {
        assert(c[k - a.len() - b.len()] == ye[k - o7]);
    }
    assert(c[o8 - a.len() - b.len()] == '/');
    assert forall|k: int| o9 <= k < o10 implies s[k] == mo[k - o9] by {
        assert(c[k - a.len() - b.len()] == mo[k - o9]);
    }
    assert(c[o10 - a.len() - b.len()] == '/');
    assert forall|k: int| o11 <= k < o12 implies s[k] == de[k - o11] by {
        assert(c[k - a.len() - b.len()] == de[k - o11]);
    }
    assert(c[o12 - a.len() - b.len()] == '\n');
    assert forall|k: int| o14 - 7 <= k < o14 implies s[k] == info_lit()[k - (o14 - 7)] by {
        assert(d[k - a.len() - b.len() - c.len()] == info_lit()[k - (o14 - 7)]);
    }
    assert forall|k: int| o14 <= k < o15 implies s[k] == t.info[k - o14] by {
        assert(d[k - a.len() - b.len() - c.len()] == t.info[k - o14]);
    }
    assert(d[o15 - a.len() - b.len() - c.len()] == '"');
}

/// Decoding any text with the layout of a well-formed task `t` yields `t`.
#[verifier::rlimit(60)]
pub proof fn lemma_decode_layout(t: TaskView, s: Seq<char>)
    requires
        t.wf(),
        0 <= t.due_date.year,
        spec_layout(t, s),
    ensures
        spec_decode(s) == Some(t),
{
    let pe = dec_digits(t.priority as int);
    let ye = dec_digits(t.due_date.year as int);
    let mo = dec_digits(t.due_date.month as int);
    let de = dec_digits(t.due_date.day as int);
    lemma_dec_digits_wf(t.priority as int);
    lemma_dec_digits_wf(t.due_date.year as int);
    lemma_dec_digits_wf(t.due_date.month as int);
    lemma_dec_digits_wf(t.due_date.day as int);
    let tl = t.title.len() as int;
    let o1: int = 8;
    let o2 = 8 + tl;
    let o3 = o2 + 2;
    let o4 = o2 + 12;
    let o5 = o4 + pe.len();
    let o6 = o5 + 1;
    let o7 = o5 + 11;
    let o8 = o7 + ye.len();
    let o9 = o8 + 1;
    let o10 = o9 + mo.len();
    let o11 = o10 + 1;
    let o12 = o11 + de.len();
    let o13 = o12 + 1;
    let o14 = o12 + 8;
    let o15 = o14 + t.info.len();

    // title
    lemma_skip_ws_exact(s, 0, 0);
    assert(s.subrange(0, o1) =~= title_lit());
    assert(spec_match_lit(s, 0, title_lit()));
    assert forall|k: int| o1 <= k < o2 implies #[trigger] s[k] != '"' by {
        assert(s[k] == t.title[k - o1]);
    }
    lemma_find_quote_exact(s, o1, o2);
    assert(s.subrange(o1, o2) =~= t.title);

    // priority
    lemma_skip_ws_exact(s, o2 + 1, o3);
    assert(s.subrange(o3, o4) =~= priority_lit());
    assert(spec_match_lit(s, o3, priority_lit()));
    assert(is_digit(pe[0]) && s[o4] == pe[0]);
    lemma_skip_ws_exact(s, o4, o4);
    assert forall|k: int| o4 <= k < o5 implies is_digit(#[trigger] s[k]) by {
        assert(s[k] == pe[k - o4]);
    }
    lemma_digits_end_exact(s, o4, o5);
    assert(s.subrange(o4, o5) =~= pe);
    assert(digits_val(s.subrange(o4, o5)) == t.priority as int);

    // due date
    lemma_skip_ws_exact(s, o5, o6);
    assert(s.subrange(o6, o7) =~= due_lit());
    assert(spec_match_lit(s, o6, due_lit()));
    assert(is_digit(ye[0]) && s[o7] == ye[0]);
    lemma_skip_ws_exact(s, o7, o7);
    assert forall|k: int| o7 <= k < o8 implies is_digit(#[trigger] s[k]) by {
        assert(s[k] == ye[k - o7]);
    }
    lemma_digits_end_exact(s, o7, o8);
    assert(s.subrange(o7, o8) =~= ye);
    assert(digits_val(s.subrange(o7, o8)) == t.due_date.year as int);

    assert forall|k: int| o9 <= k < o10 implies is_digit(#[trigger] s[k]) by {
        assert(s[k] == mo[k - o9]);
    }
    lemma_digits_end_exact(s, o9, o10);
    assert(s.subrange(o9, o10) =~= mo);
    assert(digits_val(s.subrange(o9, o10)) == t.due_date.month as int);

    assert forall|k: int| o11 <= k < o12 implies is_digit(#[trigger] s[k]) by {
        assert(s[k] == de[k - o11]);
    }
    lemma_digits_end_exact(s, o11, o12);
    assert(s.subrange(o11, o12) =~= de);
    assert(digits_val(s.subrange(o11, o12)) == t.due_date.day as int);

    // info
    lemma_skip_ws_exact(s, o12, o13);
    assert(s.subrange(o13, o14) =~= info_lit());
    assert(spec_match_lit(s, o13, info_lit()));
    assert forall|k: int| o14 <= k < o15 implies #[trigger] s[k] != '"' by {
        assert(s[k] == t.info[k - o14]);
    }
    lemma_find_quote_exact(s, o14, o15);
    assert(s.subrange(o14, o15) =~= t.info);

    let r = spec_decode(s);
    assert(r is Some);
    assert(r->Some_0 =~= t);
}

/// The priority range law: a record whose priority digit run stands for a
/// value above 255 never decodes, whatever else the text holds.
pub proof fn lemma_priority_overflow(s: Seq<char>)
    ensures
        ({
            let t0 = spec_skip_ws(s, 0);
            let tend = spec_find_quote(s, t0 + 8);
            let p0 = spec_skip_ws(s, tend + 1);
            let pstart = spec_skip_ws(s, p0 + 10);
            let pend = spec_digits_end(s, pstart);
            digits_val(s.subrange(pstart, pend)) > 255 ==> spec_decode(s) is None
        }),
{
}

/// The validity law: whatever decodes is a well-formed task — its title and
/// notes hold no quote character, and its due date is a real calendar date.
/// An impossible date such as month thirteen therefore never comes back.
pub proof fn lemma_decoded_wf(s: Seq<char>, t: TaskView)
    requires
        spec_decode(s) == Some(t),
    ensures
        t.wf(),
{
    assert(title_lit().len() == 8);
    assert(priority_lit().len() == 10);
    assert(due_lit().len() == 10);
    assert(info_lit().len() == 7);
    assert(spec_decode(s) is Some);
    let t0 = spec_skip_ws(s, 0);
    let tstart = t0 + 8;
    let tend = spec_find_quote(s, tstart);
    lemma_skip_ws_bounds(s, 0);
    assert(spec_match_lit(s, t0, title_lit()));
    lemma_find_quote_bounds(s, tstart);
    lemma_find_quote_region(s, tstart);
    assert(t.title == s.subrange(tstart, tend));
    assert(tend < s.len());
    assert forall|j: int| 0 <= j < t.title.len() implies #[trigger] t.title[j] != '"' by {
        assert(t.title[j] == s.subrange(tstart, tend)[j]);
        assert(s[tstart + j] != '"');
    }
    let p0 = spec_skip_ws(s, tend + 1);
    lemma_skip_ws_bounds(s, tend + 1);
    assert(spec_match_lit(s, p0, priority_lit()));
    let pstart = spec_skip_ws(s, p0 + 10);
    lemma_skip_ws_bounds(s, p0 + 10);
    let pend = spec_digits_end(s, pstart);
    lemma_digits_end_bounds(s, pstart);
    let d0 = spec_skip_ws(s, pend);
    lemma_skip_ws_bounds(s, pend);
    assert(spec_match_lit(s, d0, due_lit()));
    let ystart = spec_skip_ws(s, d0 + 10);
    lemma_skip_ws_bounds(s, d0 + 10);
    let yend = spec_digits_end(s, ystart);
    lemma_digits_end_bounds(s, ystart);
    assert(yend < s.len() && s[yend] == '/');
    let mstart = yend + 1;
    let mend = spec_digits_end(s, mstart);
    lemma_digits_end_bounds(s, mstart);
    assert(mend < s.len() && s[mend] == '/');
    let dstart = mend + 1;
    let dend = spec_digits_end(s, dstart);
    lemma_digits_end_bounds(s, dstart);
    lemma_digits_end_region(s, ystart);
    lemma_digits_end_region(s, mstart);
    lemma_digits_end_region(s, dstart);
    assert(all_digits(s.subrange(ystart, yend)));
    assert(all_digits(s.subrange(mstart, mend)));
    assert(all_digits(s.subrange(dstart, dend)));
    crate::numerals::lemma_digits_val_nonneg(s.subrange(ystart, yend));
    crate::numerals::lemma_digits_val_nonneg(s.subrange(mstart, mend));
    crate::numerals::lemma_digits_val_nonneg(s.subrange(dstart, dend));
    let yval = digits_val(s.subrange(ystart, yend));
    let mval = digits_val(s.subrange(mstart, mend));
    let dval = digits_val(s.subrange(dstart, dend));
    assert(spec_valid_date(yval, mval, dval));
    assert(t.due_date.year as int == yval);
    assert(t.due_date.month as int == mval);
    assert(t.due_date.day as int == dval);
    assert(t.due_date.wf());
    let i0 = spec_skip_ws(s, dend);
    lemma_skip_ws_bounds(s, dend);
    assert(spec_match_lit(s, i0, info_lit()));
    let istart = i0 + 7;
    let iend = spec_find_quote(s, istart);
    lemma_find_quote_bounds(s, istart);
    lemma_find_quote_region(s, istart);
    assert(t.info == s.subrange(istart, iend));
    assert(iend < s.len());
    assert forall|j: int| 0 <= j < t.info.len() implies #[trigger] t.info[j] != '"' by {
        assert(t.info[j] == s.subrange(istart, iend)[j]);
        assert(s[istart + j] != '"');
    }
}

/// The round-trip law: decoding the canonical text of a well-formed task
/// with a non-negative year yields that task back, every field intact.
/// (The decoder reads the year as a bare digit run, so a negative year,
/// which encodes with a minus sign, cannot come back.)
pub proof fn lemma_round_trip(t: TaskView)
    requires
        t.wf(),
        0 <= t.due_date.year,
    ensures
        spec_decode(spec_encode(t)) == Some(t),
{
    lemma_encode_layout(t);
    lemma_decode_layout(t, spec_encode(t));
}

} // verus!
