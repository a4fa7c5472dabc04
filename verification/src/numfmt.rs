//! The number formatting service: locale-aware rendering of decimal values
//! as plain numbers, integers, percentages and currency amounts.
//!
//! The locale-sensitive renderings are done by the icu crates behind the two
//! trusted functions below; their outputs are named by uninterpreted spec
//! functions, which is all the rest of the library assumes about them. The
//! integer truncation, the percentage arithmetic, the currency-code check
//! and the case normalization are verified here.

use vstd::prelude::*;
use vstd::string::*;
use writeable::Writeable;
use icu::experimental::dimension::currency::formatter::CurrencyCode;
use icu::experimental::dimension::currency::formatter::CurrencyFormatter;
use crate::decimal::DecimalValue;
use crate::decimal::DecimalView;
use crate::decimal::dec_percent_render;
use crate::decimal::dec_render;
use crate::decimal::dec_trunc;
use crate::decimal::render_decimal_value;
use crate::decimal::render_percent;
use crate::decimal::truncate_decimal;
use crate::text::is_alpha_char;
use crate::types::NumberFormatType;
use crate::types::NumberFormatView;
use crate::types::format_type_view;

verus! {

// ---------------------------------------------------------------------------
// the two locale-dependent renderings, named
// ---------------------------------------------------------------------------

/// What the service returns for a decimal digit string under a locale:
/// `Some` rendered text, or `None` when the locale's data cannot be had.
/// Both are functions of the two arguments alone.
pub uninterp spec fn decimal_rendering(digits: Seq<char>, locale: Seq<char>) -> Option<Seq<char>>;

/// What the service returns for a currency amount: digit string, uppercase
/// three-letter code, locale. `None` when the locale's data cannot be had.
pub uninterp spec fn currency_rendering(
    digits: Seq<char>,
    code: Seq<char>,
    locale: Seq<char>,
) -> Option<Seq<char>>;

/// Relies on icu::decimal::FixedDecimalFormatter with its compiled locale
/// data, fed a fixed_decimal::FixedDecimal parsed from `digits`: the
/// outcome, success and text alike, depends on `digits` and `locale` alone.
#[verifier::external_body]
fn render_decimal(digits: &str, locale: &str) -> (r: Option<String>)
    ensures
        match r {
            Some(t) => decimal_rendering(digits@, locale@) == Some(t@),
            None => decimal_rendering(digits@, locale@) is None,
        },
{
    let loc: icu::locid::Locale = match locale.parse() { Ok(l) => l, Err(_) => return None };
    let fmt = icu::decimal::FixedDecimalFormatter::try_new(&loc.into(), Default::default());
    let fmt = match fmt { Ok(f) => f, Err(_) => return None };
    let val: fixed_decimal::FixedDecimal = match digits.parse() { Ok(v) => v, Err(_) => return None };
    Some(fmt.format_to_string(&val))
}

/// Relies on icu::experimental's CurrencyFormatter with its compiled locale
/// data, fed a fixed_decimal::FixedDecimal parsed from `digits` and the
/// currency code `code`: the outcome depends on the three arguments alone.
#[verifier::external_body]
fn render_currency(digits: &str, code: &str, locale: &str) -> (r: Option<String>)
    ensures
        match r {
            Some(t) => currency_rendering(digits@, code@, locale@) == Some(t@),
            None => currency_rendering(digits@, code@, locale@) is None,
        },
{
    let loc: icu::locid::Locale = match locale.parse() { Ok(l) => l, Err(_) => return None };
    let fmt = CurrencyFormatter::try_new(&loc.into(), Default::default());
    let fmt = match fmt { Ok(f) => f, Err(_) => return None };
    let val: fixed_decimal::FixedDecimal = match digits.parse() { Ok(v) => v, Err(_) => return None };
    let cc = match code.parse() { Ok(t) => CurrencyCode(t), Err(_) => return None };
    let mut out = String::new();
    match fmt.format_fixed_decimal(&val, cc).write_to(&mut out) { Ok(()) => Some(out), Err(_) => None }
}

// ---------------------------------------------------------------------------
// currency codes
// ---------------------------------------------------------------------------

/// A well-formed currency code: exactly three ASCII letters, either case.
pub open spec fn is_valid_currency_code(code: Seq<char>) -> bool {
    code.len() == 3 && forall|i: int| 0 <= i < 3 ==> is_alpha_char(#[trigger] code[i])
}

fn valid_currency_code(code: &str) -> (r: bool)
    ensures
        r == is_valid_currency_code(code@),
{
    if code.unicode_len() != 3 {
        return false;
    }
    let c0 = code.get_char(0);
    let c1 = code.get_char(1);
    let c2 = code.get_char(2);
    let ok = ((c0 >= 'a' && c0 <= 'z') || (c0 >= 'A' && c0 <= 'Z')) && ((c1 >= 'a' && c1 <= 'z')
        || (c1 >= 'A' && c1 <= 'Z')) && ((c2 >= 'a' && c2 <= 'z') || (c2 >= 'A' && c2 <= 'Z'));
    proof {
        if ok {
            assert forall|i: int| 0 <= i < 3 implies is_alpha_char(#[trigger] code@[i]) by {
                assert(code@[0] == c0 && code@[1] == c1 && code@[2] == c2);
            }
        }
    }
    ok
}

/// An ASCII lowercase letter mapped up; anything else unchanged.
pub open spec fn upper_char(c: char) -> char {
    if 'a' <= c && c <= 'z' {
        ((c as u32) - 32) as char
    } else {
        c
    }
}

pub open spec fn upper_seq(s: Seq<char>) -> Seq<char> {
    Seq::new(s.len(), |i: int| upper_char(s[i]))
}

fn upper_letter_str(c: char) -> (r: &'static str)
    requires
        'a' <= c && c <= 'z',
    ensures
        r@ == seq![upper_char(c)],
{
    proof {
        reveal_strlit("A");
        reveal_strlit("B");
        reveal_strlit("C");
        reveal_strlit("D");
        reveal_strlit("E");
        reveal_strlit("F");
        reveal_strlit("G");
        reveal_strlit("H");
        reveal_strlit("I");
        reveal_strlit("J");
        reveal_strlit("K");
        reveal_strlit("L");
        reveal_strlit("M");
        reveal_strlit("N");
        reveal_strlit("O");
        reveal_strlit("P");
        reveal_strlit("Q");
        reveal_strlit("R");
        reveal_strlit("S");
        reveal_strlit("T");
        reveal_strlit("U");
        reveal_strlit("V");
        reveal_strlit("W");
        reveal_strlit("X");
        reveal_strlit("Y");
        reveal_strlit("Z");
    }
    let r = if c == 'a' {
        "A"
    } else if c == 'b' {
        "B"
    } else if c == 'c' {
        "C"
    } else if c == 'd' {
        "D"
    } else if c == 'e' {
        "E"
    } else if c == 'f' {
        "F"
    } else if c == 'g' {
        "G"
    } else if c == 'h' {
        "H"
    } else if c == 'i' {
        "I"
    } else if c == 'j' {
        "J"
    } else if c == 'k' {
        "K"
    } else if c == 'l' {
        "L"
    } else if c == 'm' {
        "M"
    } else if c == 'n' {
        "N"
    } else if c == 'o' {
        "O"
    } else if c == 'p' {
        "P"
    } else if c == 'q' {
        "Q"
    } else if c == 'r' {
        "R"
    } else if c == 's' {
        "S"
    } else if c == 't' {
        "T"
    } else if c == 'u' {
        "U"
    } else if c == 'v' {
        "V"
    } else if c == 'w' {
        "W"
    } else if c == 'x' {
        "X"
    } else if c == 'y' {
        "Y"
    } else {
        "Z"
    };
    proof {
        assert(r@ =~= seq![upper_char(c)]);
    }
    r
}

/// ASCII uppercasing, as currency codes are normalized before the service
/// sees them.
fn uppercase_code(code: &str) -> (r: String)
    ensures
        r@ == upper_seq(code@),
{
    let n = code.unicode_len();
    let mut out = String::new();
    let mut i: usize = 0;
    while i < n
        invariant
            0 <= i <= n,
            n == code@.len(),
            out@ == upper_seq(code@).subrange(0, i as int),
        decreases n - i,
    {
        let c = code.get_char(i);
        if c >= 'a' && c <= 'z' {
            out.append(upper_letter_str(c));
        } else {
            out.append(code.substring_char(i, i + 1));
        }
        proof {
            assert(out@ =~= upper_seq(code@).subrange(0, i + 1));
        }
        i = i + 1;
    }
    proof {
        assert(upper_seq(code@).subrange(0, n as int) =~= upper_seq(code@));
    }
    out
}

// ---------------------------------------------------------------------------
// the service interface used by the formatter
// ---------------------------------------------------------------------------

/// What formatting a decimal value under a format kind and locale produces:
/// `None` is the service failing, which the formatter reports as an invalid
/// parameter.
pub open spec fn number_output(ft: NumberFormatView, d: DecimalView, locale: Seq<char>) -> Option<
    Seq<char>,
> {
    match ft {
        NumberFormatView::Number => decimal_rendering(dec_render(d), locale),
        NumberFormatView::Integer => decimal_rendering(dec_render(dec_trunc(d)), locale),
        NumberFormatView::Percent => Some(dec_percent_render(d)),
        NumberFormatView::Currency(code) => if is_valid_currency_code(code) {
            currency_rendering(dec_render(d), upper_seq(code), locale)
        } else {
            None
        },
    }
}

/// Renders one decimal value: plain and integer renderings and currency
/// amounts through the locale-aware service, percentages by exact decimal
/// arithmetic.
pub fn format_number(value: &DecimalValue, format_type: &NumberFormatType, locale: &str) -> (r:
    Option<String>)
    ensures
        match r {
            Some(t) => number_output(format_type_view(*format_type), value@, locale@) == Some(t@),
            None => number_output(format_type_view(*format_type), value@, locale@) is None,
        },
{
    match format_type {
        NumberFormatType::Number => {
            let digits = render_decimal_value(value);
            render_decimal(digits.as_str(), locale)
        },
        NumberFormatType::Integer => {
            let truncated = truncate_decimal(value);
            let digits = render_decimal_value(&truncated);
            render_decimal(digits.as_str(), locale)
        },
        NumberFormatType::Percent => Some(render_percent(value)),
        NumberFormatType::Currency(code) => {
            if valid_currency_code(code.as_str()) {
                let upper = uppercase_code(code.as_str());
                let digits = render_decimal_value(value);
                render_currency(digits.as_str(), upper.as_str(), locale)
            } else {
                None
            }
        },
    }
}

} // verus!
