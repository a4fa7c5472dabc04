//! Characters, digit strings and verified conversions between integers and
//! their base-10 text form.

use vstd::prelude::*;
use vstd::string::*;

verus! {

// ---------------------------------------------------------------------------
// character classes
// ---------------------------------------------------------------------------

/// ASCII decimal digit.
pub open spec fn is_digit_char(c: char) -> bool {
    '0' <= c && c <= '9'
}

/// ASCII letter.
pub open spec fn is_alpha_char(c: char) -> bool {
    ('a' <= c && c <= 'z') || ('A' <= c && c <= 'Z')
}

/// ASCII letter or digit.
pub open spec fn is_alnum_char(c: char) -> bool {
    is_alpha_char(c) || is_digit_char(c)
}

/// Character allowed in a parameter or selector name.
pub open spec fn is_name_char(c: char) -> bool {
    is_alnum_char(c) || c == '_'
}

/// Whitespace accepted between the tokens of a template construct.
pub open spec fn is_space_char(c: char) -> bool {
    c == ' ' || c == '\t' || c == '\n' || c == '\r'
}

/// Numeric value of an ASCII digit.
pub open spec fn digit_value(c: char) -> int {
    c as int - 48
}

/// The ASCII digit for a value in `0 ..= 9`.
pub open spec fn digit_char(d: int) -> char {
    if d == 0 {
        '0'
    } else if d == 1 {
        '1'
    } else if d == 2 {
        '2'
    } else if d == 3 {
        '3'
    } else if d == 4 {
        '4'
    } else if d == 5 {
        '5'
    } else if d == 6 {
        '6'
    } else if d == 7 {
        '7'
    } else if d == 8 {
        '8'
    } else {
        '9'
    }
}

// ---------------------------------------------------------------------------
// string equality
// ---------------------------------------------------------------------------

/// Character-for-character comparison of two string slices.
pub fn str_eq(a: &str, b: &str) -> (r: bool)
    ensures
        r == (a@ == b@),
{
    let alen = a.unicode_len();
    let blen = b.unicode_len();
    if alen != blen {
        return false;
    }
    let mut i: usize = 0;
    while i < alen
        invariant
            a@.len() == alen,
            b@.len() == blen,
            alen == blen,
            0 <= i <= alen,
            forall|j: int| 0 <= j < i ==> a@[j] == b@[j],
        decreases alen - i,
    {
        if a.get_char(i) != b.get_char(i) {
            return false;
        }
        i = i + 1;
    }
    proof {
        assert(a@ =~= b@);
    }
    true
}

// ---------------------------------------------------------------------------
// base-10 representations
// ---------------------------------------------------------------------------

/// The decimal digits of a nonnegative integer, most significant first.
pub open spec fn dec_digits(n: nat) -> Seq<char>
    decreases n,
{
    if n < 10 {
        seq![digit_char(n as int)]
    } else {
        dec_digits(n / 10).push(digit_char((n % 10) as int))
    }
}

/// The decimal representation of an integer, with a leading `-` when negative.
pub open spec fn dec_str(n: int) -> Seq<char> {
    if n < 0 {
        seq!['-'] + dec_digits((-n) as nat)
    } else {
        dec_digits(n as nat)
    }
}

/// One-character string slice for a digit value.
pub fn digit_str(d: u64) -> (s: &'static str)
    requires
        d < 10,
    ensures
        s@ =~= seq![digit_char(d as int)],
{
    proof {
        reveal_strlit("0");
        reveal_strlit("1");
        reveal_strlit("2");
        reveal_strlit("3");
        reveal_strlit("4");
        reveal_strlit("5");
        reveal_strlit("6");
        reveal_strlit("7");
        reveal_strlit("8");
        reveal_strlit("9");
    }
    if d == 0 {
        "0"
    } else if d == 1 {
        "1"
    } else if d == 2 {
        "2"
    } else if d == 3 {
        "3"
    } else if d == 4 {
        "4"
    } else if d == 5 {
        "5"
    } else if d == 6 {
        "6"
    } else if d == 7 {
        "7"
    } else if d == 8 {
        "8"
    } else {
        "9"
    }
}

/// Renders a `u64` in base 10.
pub fn u64_to_string(n: u64) -> (s: String)
    ensures
        s@ == dec_digits(n as nat),
    decreases n,
{
    if n < 10 {
        let s = String::from_str(digit_str(n));
        s
    } else {
        let mut s = u64_to_string(n / 10);
        s.append(digit_str(n % 10));
        proof {
            assert(s@ =~= dec_digits((n / 10) as nat).push(digit_char((n % 10) as int)));
        }
        s
    }
}

/// Renders an `i64` in base 10, with a leading `-` when negative.
pub fn i64_to_string(n: i64) -> (s: String)
    ensures
        s@ == dec_str(n as int),
{
    if n >= 0 {
        u64_to_string(n as u64)
    } else {
        let mag: u64 = if n == i64::MIN {
            9223372036854775808u64
        } else {
            (-n) as u64
        };
        let mut s = String::from_str("-");
        let rest = u64_to_string(mag);
        s.append(rest.as_str());
        proof {
            reveal_strlit("-");
            assert(s@ =~= seq!['-'] + dec_digits((-(n as int)) as nat));
        }
        s
    }
}

// ---------------------------------------------------------------------------
// digit strings as numbers
// ---------------------------------------------------------------------------

pub open spec fn all_digits(s: Seq<char>) -> bool {
    forall|i: int| 0 <= i < s.len() ==> is_digit_char(s[i])
}

/// Numeric value of a digit string, most significant digit first.
pub open spec fn digits_value(s: Seq<char>) -> int
    decreases s.len(),
{
    if s.len() == 0 {
        0
    } else {
        digits_value(s.subrange(0, s.len() - 1)) * 10 + digit_value(s[s.len() - 1])
    }
}

/// Ten to the power `k`.
pub open spec fn pow10(k: nat) -> int
    decreases k,
{
    if k == 0 {
        1
    } else {
        10 * pow10((k - 1) as nat)
    }
}

pub proof fn lemma_pow10_pos(k: nat)
    ensures
        pow10(k) >= 1,
    decreases k,
{
    if k > 0 {
        lemma_pow10_pos((k - 1) as nat);
    }
}

pub proof fn lemma_pow10_mono(j: nat, k: nat)
    requires
        j <= k,
    ensures
        pow10(j) <= pow10(k),
    decreases k,
{
    if j < k {
        lemma_pow10_mono(j, (k - 1) as nat);
        lemma_pow10_pos((k - 1) as nat);
    }
}

pub proof fn lemma_digits_value_lower(s: Seq<char>)
    requires
        all_digits(s),
        s.len() >= 1,
        s[0] != '0',
    ensures
        digits_value(s) >= pow10((s.len() - 1) as nat),
    decreases s.len(),
{
    if s.len() == 1 {
        assert(s.subrange(0, 0).len() == 0);
        assert(digits_value(s.subrange(0, 0)) == 0);
        assert(digit_value(s[0]) >= 1);
    } else {
        let pre = s.subrange(0, s.len() - 1);
        assert(all_digits(pre));
        lemma_digits_value_lower(pre);
        assert(pow10((s.len() - 1) as nat) == 10 * pow10((s.len() - 2) as nat));
        assert(digits_value(pre) * 10 >= pow10((s.len() - 2) as nat) * 10);
        assert(digit_value(s[s.len() - 1]) >= 0);
    }
}

/// Leading zeros do not change the value of a digit string.
pub proof fn lemma_digits_value_leading_zeros(s: Seq<char>, k: int)
    requires
        all_digits(s),
        0 <= k <= s.len(),
        forall|i: int| 0 <= i < k ==> s[i] == '0',
    ensures
        digits_value(s) == digits_value(s.subrange(k, s.len() as int)),
    decreases s.len(),
{
    if k == s.len() {
        // the whole string is zeros; show its value is 0
        lemma_digits_value_all_zeros(s);
        assert(s.subrange(k, s.len() as int) =~= Seq::<char>::empty());
    } else if s.len() > 0 {
        let pre = s.subrange(0, s.len() - 1);
        assert(all_digits(pre));
        lemma_digits_value_leading_zeros(pre, k);
        assert(pre.subrange(k, pre.len() as int) =~= s.subrange(k, s.len() as int).subrange(
            0,
            s.subrange(k, s.len() as int).len() - 1,
        ));
        assert(s.subrange(k, s.len() as int)[s.len() - k - 1] == s[s.len() - 1]);
    }
}

pub proof fn lemma_digits_value_all_zeros(s: Seq<char>)
    requires
        forall|i: int| 0 <= i < s.len() ==> s[i] == '0',
    ensures
        digits_value(s) == 0,
    decreases s.len(),
{
    if s.len() > 0 {
        lemma_digits_value_all_zeros(s.subrange(0, s.len() - 1));
    }
}

// ---------------------------------------------------------------------------
// parsing signed 64-bit integers
// ---------------------------------------------------------------------------

/// Meaning of an optionally signed base-10 integer literal, limited to the
/// range of `i64`: exactly the strings accepted when binding a plural count.
pub open spec fn parse_i64_spec(s: Seq<char>) -> Option<int> {
    let neg = s.len() > 0 && s[0] == '-';
    let body = if s.len() > 0 && (s[0] == '-' || s[0] == '+') {
        s.subrange(1, s.len() as int)
    } else {
        s
    };
    if body.len() > 0 && all_digits(body) {
        let v = if neg {
            -digits_value(body)
        } else {
            digits_value(body)
        };
        if -9223372036854775808 <= v <= 9223372036854775807 {
            Some(v)
        } else {
            None
        }
    } else {
        None
    }
}

/// Digit value of an ASCII digit character.
pub fn char_digit(c: char) -> (d: u64)
    requires
        is_digit_char(c),
    ensures
        d as int == digit_value(c),
        d < 10,
{
    (c as u32 - 48) as u64
}

/// Parses an optionally signed base-10 integer, exactly when
/// `parse_i64_spec` accepts it.
pub fn parse_i64(s: &str) -> (r: Option<i64>)
    ensures
        match r {
            Some(v) => parse_i64_spec(s@) == Some(v as int),
            None => parse_i64_spec(s@) is None,
        },
{
    let n = s.unicode_len();
    let mut pos: usize = 0;
    let mut neg: bool = false;
    if n > 0 {
        let c0 = s.get_char(0);
        if c0 == '-' {
            neg = true;
            pos = 1;
        } else if c0 == '+' {
            pos = 1;
        }
    }
    let ghost body = if s@.len() > 0 && (s@[0] == '-' || s@[0] == '+') {
        s@.subrange(1, s@.len() as int)
    } else {
        s@
    };
    proof {
        assert(body =~= s@.subrange(pos as int, n as int));
    }
    if pos >= n {
        return None;
    }
    // every remaining character must be a digit
    let mut i: usize = pos;
    while i < n
        invariant
            s@.len() == n,
            pos <= i <= n,
            pos as int == (if s@.len() > 0 && (s@[0] == '-' || s@[0] == '+') {
                1int
            } else {
                0int
            }),
            body == s@.subrange(pos as int, n as int),
            forall|j: int| pos <= j < i ==> is_digit_char(s@[j]),
        decreases n - i,
    {
        let c = s.get_char(i);
        if !(c >= '0' && c <= '9') {
            proof {
                assert(body.len() == n - pos);
                assert(body[i - pos as int] == s@[i as int]);
                assert(!is_digit_char(body[i - pos as int]));
            }
            return None;
        }
        i = i + 1;
    }
    proof {
        assert(all_digits(body));
    }
    // skip leading zeros
    let mut z: usize = pos;
    while z < n && s.get_char(z) == '0'
        invariant
            s@.len() == n,
            pos <= z <= n,
            forall|j: int| pos <= j < z ==> s@[j] == '0',
        decreases n - z,
    {
        z = z + 1;
    }
    let ghost sig = s@.subrange(z as int, n as int);
    proof {
        lemma_digits_value_leading_zeros(body, z - pos as int);
        assert(body.subrange(z - pos as int, body.len() as int) =~= sig);
        assert(digits_value(body) == digits_value(sig));
    }
    if n - z > 19 {
        proof {
            lemma_digits_value_lower(sig);
            lemma_pow10_mono(19, (sig.len() - 1) as nat);
            assert(pow10(19) == 10000000000000000000) by {
                reveal_with_fuel(pow10, 20);
            }
        }
        return None;
    }
    // accumulate the value; at most 19 significant digits, so no overflow
    let mut acc: u64 = 0;
    let mut i: usize = z;
    while i < n
        invariant
            s@.len() == n,
            z <= i <= n,
            n - z <= 19,
            all_digits(sig),
            sig == s@.subrange(z as int, n as int),
            acc as int == digits_value(s@.subrange(z as int, i as int)),
            (acc as int) < pow10((i - z) as nat),
        decreases n - i,
    {
        let c = s.get_char(i);
        proof {
            assert(is_digit_char(sig[i - z as int]));
            assert(pow10(((i + 1) - z) as nat) == 10 * pow10((i - z) as nat));
            lemma_pow10_mono(((i + 1) - z) as nat, 19);
            assert(pow10(19) == 10000000000000000000) by {
                reveal_with_fuel(pow10, 20);
            }
        }
        let d = char_digit(c);
        acc = acc * 10 + d;
        proof {
            let t = s@.subrange(z as int, (i + 1) as int);
            assert(t.subrange(0, t.len() - 1) =~= s@.subrange(z as int, i as int));
            assert(t[t.len() - 1] == s@[i as int]);
        }
        i = i + 1;
    }
    proof {
        assert(s@.subrange(z as int, n as int) =~= sig);
        assert(acc as int == digits_value(body));
    }
    if neg {
        if acc > 9223372036854775808u64 {
            None
        } else if acc == 9223372036854775808u64 {
            Some(i64::MIN)
        } else {
            Some(-(acc as i64))
        }
    } else {
        if acc > 9223372036854775807u64 {
            None
        } else {
            Some(acc as i64)
        }
    }
}

} // verus!
