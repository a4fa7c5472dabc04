//! Exact decimal values for number formatting.
//!
//! A bound value headed for number formatting is read as a plain base-10
//! decimal — optional sign, integer digits, optional fraction digits — and
//! normalized: no leading zeros ahead of the integer part, no trailing zeros
//! after the fraction, no sign on zero. The formatter works on this exact
//! form; no floating point is involved.

use vstd::prelude::*;
use vstd::string::*;
use crate::text::all_digits;
use crate::text::dec_digits;
use crate::text::is_digit_char;

verus! {

/// A normalized decimal value: `negative` is never set on zero, the integer
/// part has no leading zero (except the single digit `0`), and the fraction
/// has no trailing zeros.
#[derive(Debug, Clone, PartialEq)]
pub struct DecimalValue {
    pub negative: bool,
    pub int_part: String,
    pub frac_part: String,
}

/// Mathematical model of a decimal value.
pub struct DecimalView {
    pub negative: bool,
    pub int_part: Seq<char>,
    pub frac_part: Seq<char>,
}

impl View for DecimalValue {
    type V = DecimalView;

    open spec fn view(&self) -> DecimalView {
        DecimalView {
            negative: self.negative,
            int_part: self.int_part@,
            frac_part: self.frac_part@,
        }
    }
}

pub open spec fn dec_is_zero(d: DecimalView) -> bool {
    d.int_part == seq!['0'] && d.frac_part.len() == 0
}

pub open spec fn dec_canonical(d: DecimalView) -> bool {
    &&& all_digits(d.int_part)
    &&& all_digits(d.frac_part)
    &&& d.int_part.len() >= 1
    &&& (d.int_part.len() > 1 ==> d.int_part[0] != '0')
    &&& (d.frac_part.len() > 0 ==> d.frac_part[d.frac_part.len() - 1] != '0')
    &&& (d.negative ==> !dec_is_zero(d))
}

// ---------------------------------------------------------------------------
// normalization
// ---------------------------------------------------------------------------

/// Drops leading `0` characters.
pub open spec fn strip_leading_zeros(s: Seq<char>) -> Seq<char>
    decreases s.len(),
{
    if s.len() > 0 && s[0] == '0' {
        strip_leading_zeros(s.subrange(1, s.len() as int))
    } else {
        s
    }
}

/// Drops trailing `0` characters.
pub open spec fn strip_trailing_zeros(s: Seq<char>) -> Seq<char>
    decreases s.len(),
{
    if s.len() > 0 && s[s.len() - 1] == '0' {
        strip_trailing_zeros(s.subrange(0, s.len() - 1))
    } else {
        s
    }
}

/// Integer digits with leading zeros dropped, but never empty.
pub open spec fn canon_int_digits(s: Seq<char>) -> Seq<char> {
    if strip_leading_zeros(s).len() == 0 {
        seq!['0']
    } else {
        strip_leading_zeros(s)
    }
}

/// The normalized decimal with sign `neg`, integer digits `ip` and fraction
/// digits `fp`.
pub open spec fn make_canonical(neg: bool, ip: Seq<char>, fp: Seq<char>) -> DecimalView {
    let ipc = canon_int_digits(ip);
    let fpc = strip_trailing_zeros(fp);
    let zero = ipc == seq!['0'] && fpc.len() == 0;
    DecimalView { negative: neg && !zero, int_part: ipc, frac_part: fpc }
}

pub proof fn lemma_strip_leading_zeros(s: Seq<char>, k: int)
    requires
        0 <= k <= s.len(),
        forall|i: int| 0 <= i < k ==> s[i] == '0',
        k < s.len() ==> s[k] != '0',
    ensures
        strip_leading_zeros(s) == s.subrange(k, s.len() as int),
    decreases s.len(),
{
    if s.len() > 0 && s[0] == '0' {
        let tail = s.subrange(1, s.len() as int);
        assert(k >= 1);
        lemma_strip_leading_zeros(tail, k - 1);
        assert(tail.subrange(k - 1, tail.len() as int) =~= s.subrange(k, s.len() as int));
    } else {
        assert(k == 0);
        assert(s.subrange(0, s.len() as int) =~= s);
    }
}

pub proof fn lemma_strip_trailing_zeros(s: Seq<char>, k: int)
    requires
        0 <= k <= s.len(),
        forall|i: int| k <= i < s.len() ==> s[i] == '0',
        k > 0 ==> s[k - 1] != '0',
    ensures
        strip_trailing_zeros(s) == s.subrange(0, k),
    decreases s.len(),
{
    if s.len() > 0 && s[s.len() - 1] == '0' {
        let head = s.subrange(0, s.len() - 1);
        assert(k <= s.len() - 1);
        lemma_strip_trailing_zeros(head, k);
        assert(head.subrange(0, k) =~= s.subrange(0, k));
    } else {
        assert(k == s.len());
        assert(s.subrange(0, s.len() as int) =~= s);
    }
}

// ---------------------------------------------------------------------------
// reading a decimal literal
// ---------------------------------------------------------------------------

/// End of the digit run starting at `pos`.
pub open spec fn digits_end(s: Seq<char>, pos: int) -> int
    decreases s.len() - pos,
{
    if 0 <= pos < s.len() && is_digit_char(s[pos]) {
        digits_end(s, pos + 1)
    } else {
        pos
    }
}

/// Meaning of a decimal literal: optional sign, integer digits, optional
/// `.` and fraction digits, with at least one digit in all; the value is
/// returned in normalized form.
pub open spec fn parse_decimal_spec(s: Seq<char>) -> Option<DecimalView> {
    let neg = s.len() > 0 && s[0] == '-';
    let start: int = if s.len() > 0 && (s[0] == '-' || s[0] == '+') {
        1
    } else {
        0
    };
    let ie = digits_end(s, start);
    if ie == s.len() {
        if ie > start {
            Some(make_canonical(neg, s.subrange(start, ie), Seq::empty()))
        } else {
            None
        }
    } else if s[ie] == '.' {
        let fe = digits_end(s, ie + 1);
        if fe == s.len() && (ie > start || fe > ie + 1) {
            Some(make_canonical(neg, s.subrange(start, ie), s.subrange(ie + 1, fe)))
        } else {
            None
        }
    } else {
        None
    }
}

fn scan_digits(s: &str, pos: usize) -> (r: usize)
    requires
        pos <= s@.len(),
    ensures
        r as int == digits_end(s@, pos as int),
        pos <= r <= s@.len(),
        forall|j: int| pos <= j < r ==> is_digit_char(s@[j]),
    decreases s@.len() - pos,
{
    let n = s.unicode_len();
    let mut i: usize = pos;
    while i < n
        invariant
            pos <= i <= n,
            n == s@.len(),
            digits_end(s@, pos as int) == digits_end(s@, i as int),
            forall|j: int| pos <= j < i ==> is_digit_char(s@[j]),
        decreases n - i,
    {
        let c = s.get_char(i);
        if !(c >= '0' && c <= '9') {
            return i;
        }
        i = i + 1;
    }
    i
}

/// Reads and normalizes a decimal literal, exactly when
/// `parse_decimal_spec` accepts it.
pub fn parse_decimal(s: &str) -> (r: Option<DecimalValue>)
    ensures
        match r {
            Some(d) => parse_decimal_spec(s@) == Some(d@),
            None => parse_decimal_spec(s@) is None,
        },
{
    let n = s.unicode_len();
    let mut start: usize = 0;
    let mut neg: bool = false;
    if n > 0 {
        let c0 = s.get_char(0);
        if c0 == '-' {
            neg = true;
            start = 1;
        } else if c0 == '+' {
            start = 1;
        }
    }
    let ie = scan_digits(s, start);
    let mut fs: usize = ie;
    let mut fe: usize = ie;
    if ie == n {
        if ie == start {
            return None;
        }
    } else if s.get_char(ie) == '.' {
        fs = ie + 1;
        fe = scan_digits(s, fs);
        if !(fe == n && (ie > start || fe > fs)) {
            return None;
        }
    } else {
        return None;
    }
    // integer part: drop leading zeros
    let mut z: usize = start;
    while z < ie && s.get_char(z) == '0'
        invariant
            start <= z <= ie,
            ie <= s@.len(),
            forall|j: int| start <= j < z ==> s@[j] == '0',
        decreases ie - z,
    {
        z = z + 1;
    }
    let int_part = if z == ie {
        String::from_str("0")
    } else {
        String::from_str(s.substring_char(z, ie))
    };
    // fraction part: drop trailing zeros
    let mut t: usize = fe;
    while t > fs && s.get_char(t - 1) == '0'
        invariant
            fs <= t <= fe,
            fe <= s@.len(),
            forall|j: int| t <= j < fe ==> s@[j] == '0',
        decreases t,
    {
        t = t - 1;
    }
    let frac_part = String::from_str(s.substring_char(fs, t));
    let zero = z == ie && t == fs;
    let d = DecimalValue { negative: neg && !zero, int_part, frac_part };
    proof {
        reveal_strlit("0");
        let ip = s@.subrange(start as int, ie as int);
        lemma_strip_leading_zeros(ip, z - start as int);
        assert(ip.subrange(z - start as int, ip.len() as int) =~= s@.subrange(
            z as int,
            ie as int,
        ));
        if z == ie {
            assert(strip_leading_zeros(ip).len() == 0);
            assert(d@.int_part =~= seq!['0']);
            assert(canon_int_digits(ip) == seq!['0']);
        } else {
            assert(strip_leading_zeros(ip).len() > 0);
            assert(canon_int_digits(ip) == s@.subrange(z as int, ie as int));
            assert(s@[z as int] != '0');
            assert(canon_int_digits(ip)[0] != '0');
            assert(canon_int_digits(ip) != seq!['0']);
        }
        let fp = s@.subrange(fs as int, fe as int);
        lemma_strip_trailing_zeros(fp, t - fs as int);
        assert(fp.subrange(0, t - fs as int) =~= s@.subrange(fs as int, t as int));
        if fs == fe {
            assert(fp =~= Seq::<char>::empty());
        }
        assert(strip_trailing_zeros(fp).len() == 0 <==> t == fs);
    }
    Some(d)
}

// ---------------------------------------------------------------------------
// derived values
// ---------------------------------------------------------------------------

/// The decimal for an integer.
pub open spec fn dec_of_int(n: int) -> DecimalView {
    if n < 0 {
        DecimalView { negative: true, int_part: dec_digits((-n) as nat), frac_part: Seq::empty() }
    } else {
        DecimalView { negative: false, int_part: dec_digits(n as nat), frac_part: Seq::empty() }
    }
}

pub fn decimal_from_i64(n: i64) -> (d: DecimalValue)
    ensures
        d@ == dec_of_int(n as int),
{
    if n >= 0 {
        let d = DecimalValue {
            negative: false,
            int_part: crate::text::u64_to_string(n as u64),
            frac_part: String::new(),
        };
        proof {
            assert(d@.frac_part =~= Seq::<char>::empty());
        }
        d
    } else {
        let mag: u64 = if n == i64::MIN {
            9223372036854775808u64
        } else {
            (-n) as u64
        };
        let d = DecimalValue {
            negative: true,
            int_part: crate::text::u64_to_string(mag),
            frac_part: String::new(),
        };
        proof {
            assert(d@.frac_part =~= Seq::<char>::empty());
        }
        d
    }
}

/// The text handed to the number formatting service: `-`, integer digits,
/// and the fraction after a `.` when there is one.
pub open spec fn dec_render(d: DecimalView) -> Seq<char> {
    let digits = if d.frac_part.len() > 0 {
        d.int_part + seq!['.'] + d.frac_part
    } else {
        d.int_part
    };
    if d.negative {
        seq!['-'] + digits
    } else {
        digits
    }
}

pub fn render_decimal_value(d: &DecimalValue) -> (r: String)
    ensures
        r@ == dec_render(d@),
{
    let mut out = String::new();
    if d.negative {
        out.append("-");
        proof {
            reveal_strlit("-");
        }
    }
    out.append(d.int_part.as_str());
    if d.frac_part.unicode_len() > 0 {
        out.append(".");
        proof {
            reveal_strlit(".");
        }
        out.append(d.frac_part.as_str());
        proof {
            assert(out@ =~= dec_render(d@));
        }
    } else {
        proof {
            assert(out@ =~= dec_render(d@));
        }
    }
    out
}

/// The value with its fraction dropped: truncation toward zero.
pub open spec fn dec_trunc(d: DecimalView) -> DecimalView {
    DecimalView {
        negative: d.negative && d.int_part != seq!['0'],
        int_part: d.int_part,
        frac_part: Seq::empty(),
    }
}

pub fn truncate_decimal(d: &DecimalValue) -> (r: DecimalValue)
    ensures
        r@ == dec_trunc(d@),
{
    let zero_int = str_is_zero_digit(&d.int_part);
    let r = DecimalValue {
        negative: d.negative && !zero_int,
        int_part: d.int_part.clone(),
        frac_part: String::new(),
    };
    proof {
        assert(r@.frac_part =~= Seq::<char>::empty());
    }
    r
}

fn str_is_zero_digit(s: &String) -> (r: bool)
    ensures
        r == (s@ == seq!['0']),
{
    let r = crate::text::str_eq(s.as_str(), "0");
    proof {
        reveal_strlit("0");
        if r {
            assert(s@ =~= seq!['0']);
        } else {
            assert("0"@ =~= seq!['0']);
        }
    }
    r
}

// ---------------------------------------------------------------------------
// percentages
// ---------------------------------------------------------------------------

/// Digits of `|d| * 100`, truncated toward zero: the decimal point moves two
/// places right and whatever fraction remains is dropped.
pub open spec fn percent_shift_digits(d: DecimalView) -> Seq<char> {
    let f2 = if d.frac_part.len() >= 2 {
        d.frac_part.subrange(0, 2)
    } else if d.frac_part.len() == 1 {
        d.frac_part + seq!['0']
    } else {
        seq!['0', '0']
    };
    canon_int_digits(d.int_part + f2)
}

/// The rendered percentage: sign when the shifted value is not zero, its
/// digits, and a literal `%`.
pub open spec fn dec_percent_render(d: DecimalView) -> Seq<char> {
    let digits = percent_shift_digits(d);
    if d.negative && digits != seq!['0'] {
        seq!['-'] + digits + seq!['%']
    } else {
        digits + seq!['%']
    }
}

pub fn render_percent(d: &DecimalValue) -> (r: String)
    ensures
        r@ == dec_percent_render(d@),
{
    // digits of the value shifted two places
    let mut raw = d.int_part.clone();
    let fl = d.frac_part.unicode_len();
    if fl >= 2 {
        raw.append(d.frac_part.as_str().substring_char(0, 2));
    } else if fl == 1 {
        raw.append(d.frac_part.as_str());
        raw.append("0");
        proof {
            reveal_strlit("0");
        }
    } else {
        raw.append("00");
        proof {
            reveal_strlit("00");
        }
    }
    proof {
        let f2 = if d@.frac_part.len() >= 2 {
            d@.frac_part.subrange(0, 2)
        } else if d@.frac_part.len() == 1 {
            d@.frac_part + seq!['0']
        } else {
            seq!['0', '0']
        };
        if fl == 1 {
            assert(raw@ =~= d@.int_part + f2);
        }
        if fl == 0 {
            assert("00"@ =~= seq!['0', '0']) by {
                reveal_strlit("00");
            }
            assert(raw@ =~= d@.int_part + f2);
        }
    }
    // drop leading zeros
    let rn = raw.unicode_len();
    let mut z: usize = 0;
    while z < rn && raw.as_str().get_char(z) == '0'
        invariant
            0 <= z <= rn,
            rn == raw@.len(),
            forall|j: int| 0 <= j < z ==> raw@[j] == '0',
        decreases rn - z,
    {
        z = z + 1;
    }
    proof {
        lemma_strip_leading_zeros(raw@, z as int);
    }
    let digits = if z == rn {
        String::from_str("0")
    } else {
        String::from_str(raw.as_str().substring_char(z, rn))
    };
    proof {
        reveal_strlit("0");
        if z == rn {
            assert(digits@ =~= seq!['0']);
            assert(raw@.subrange(z as int, rn as int).len() == 0);
        } else {
            assert(digits@ == raw@.subrange(z as int, rn as int));
            assert(digits@[0] != '0');
            assert(digits@ != seq!['0']);
        }
    }
    let is_zero = z == rn;
    let mut out = String::new();
    if d.negative && !is_zero {
        out.append("-");
        proof {
            reveal_strlit("-");
        }
    }
    out.append(digits.as_str());
    out.append("%");
    proof {
        reveal_strlit("%");
        assert(out@ =~= dec_percent_render(d@));
    }
    out
}

// ---------------------------------------------------------------------------
// the canonical form is an invariant
// ---------------------------------------------------------------------------

proof fn lemma_strip_leading_zeros_wf(s: Seq<char>)
    requires
        all_digits(s),
    ensures
        all_digits(strip_leading_zeros(s)),
        strip_leading_zeros(s).len() > 0 ==> strip_leading_zeros(s)[0] != '0',
    decreases s.len(),
{
    if s.len() > 0 && s[0] == '0' {
        let tail = s.subrange(1, s.len() as int);
        assert forall|j: int| 0 <= j < tail.len() implies is_digit_char(#[trigger] tail[j]) by {
            assert(tail[j] == s[j + 1]);
        }
        lemma_strip_leading_zeros_wf(tail);
    }
}

proof fn lemma_strip_trailing_zeros_wf(s: Seq<char>)
    requires
        all_digits(s),
    ensures
        all_digits(strip_trailing_zeros(s)),
        strip_trailing_zeros(s).len() > 0 ==> strip_trailing_zeros(s)[strip_trailing_zeros(
            s,
        ).len() - 1] != '0',
    decreases s.len(),
{
    if s.len() > 0 && s[s.len() - 1] == '0' {
        let head = s.subrange(0, s.len() - 1);
        assert forall|j: int| 0 <= j < head.len() implies is_digit_char(#[trigger] head[j]) by {
            assert(head[j] == s[j]);
        }
        lemma_strip_trailing_zeros_wf(head);
    }
}

/// Normalizing any two digit runs gives a canonical decimal.
pub proof fn lemma_make_canonical_wf(neg: bool, ip: Seq<char>, fp: Seq<char>)
    requires
        all_digits(ip),
        all_digits(fp),
    ensures
        dec_canonical(make_canonical(neg, ip, fp)),
{
    lemma_strip_leading_zeros_wf(ip);
    lemma_strip_trailing_zeros_wf(fp);
    let d = make_canonical(neg, ip, fp);
    if strip_leading_zeros(ip).len() == 0 {
        assert(d.int_part == seq!['0']);
        assert(is_digit_char(d.int_part[0]));
    } else {
        assert(d.int_part[0] != '0');
        assert(d.int_part != seq!['0']);
    }
}

proof fn lemma_digits_end_chars(s: Seq<char>, pos: int)
    requires
        0 <= pos <= s.len(),
    ensures
        pos <= digits_end(s, pos) <= s.len(),
        forall|j: int| pos <= j < digits_end(s, pos) ==> is_digit_char(s[j]),
    decreases s.len() - pos,
{
    if pos < s.len() && is_digit_char(s[pos]) {
        lemma_digits_end_chars(s, pos + 1);
    }
}

/// Every decimal the parser accepts is in canonical form.
pub proof fn lemma_parse_decimal_canonical(s: Seq<char>)
    ensures
        match parse_decimal_spec(s) {
            Some(d) => dec_canonical(d),
            None => true,
        },
{
    if parse_decimal_spec(s) is Some {
        let neg = s.len() > 0 && s[0] == '-';
        let start: int = if s.len() > 0 && (s[0] == '-' || s[0] == '+') {
            1
        } else {
            0
        };
        lemma_digits_end_chars(s, start);
        let ie = digits_end(s, start);
        let ip = s.subrange(start, ie);
        assert forall|j: int| 0 <= j < ip.len() implies is_digit_char(#[trigger] ip[j]) by {
            assert(ip[j] == s[start + j]);
        }
        if ie == s.len() {
            lemma_make_canonical_wf(neg, ip, Seq::empty());
        } else {
            lemma_digits_end_chars(s, ie + 1);
            let fe = digits_end(s, ie + 1);
            let fp = s.subrange(ie + 1, fe);
            assert forall|j: int| 0 <= j < fp.len() implies is_digit_char(#[trigger] fp[j]) by {
                assert(fp[j] == s[ie + 1 + j]);
            }
            lemma_make_canonical_wf(neg, ip, fp);
        }
    }
}

proof fn lemma_dec_digits_wf(n: nat)
    ensures
        all_digits(dec_digits(n)),
        dec_digits(n).len() >= 1,
        n >= 1 ==> dec_digits(n)[0] != '0',
    decreases n,
{
    if n < 10 {
        assert(dec_digits(n) == seq![crate::text::digit_char(n as int)]);
        assert(is_digit_char(dec_digits(n)[0]));
    } else {
        lemma_dec_digits_wf(n / 10);
        let pre = dec_digits(n / 10);
        assert forall|j: int| 0 <= j < dec_digits(n).len() implies is_digit_char(
            #[trigger] dec_digits(n)[j],
        ) by {
            if j < pre.len() {
                assert(dec_digits(n)[j] == pre[j]);
            } else {
                assert(dec_digits(n)[j] == crate::text::digit_char((n % 10) as int));
            }
        }
        assert(dec_digits(n)[0] == pre[0]);
    }
}

/// The decimal for an integer is in canonical form.
pub proof fn lemma_dec_of_int_canonical(n: int)
    ensures
        dec_canonical(dec_of_int(n)),
{
    if n < 0 {
        lemma_dec_digits_wf((-n) as nat);
        assert(dec_digits((-n) as nat)[0] != '0');
        assert(dec_digits((-n) as nat) != seq!['0']);
    } else {
        lemma_dec_digits_wf(n as nat);
    }
}

/// Truncation keeps the canonical form.
pub proof fn lemma_dec_trunc_canonical(d: DecimalView)
    requires
        dec_canonical(d),
    ensures
        dec_canonical(dec_trunc(d)),
{
}

} // verus!
