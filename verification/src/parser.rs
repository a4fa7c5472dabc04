//! Recursive-descent parser for the template syntax.
//!
//! Alternatives at each position are tried in a fixed order — number, select,
//! plural, bare parameter, text run — because the grammar cannot otherwise
//! tell the `{x, ...}` forms apart. The functions `sp_*` define the grammar
//! as spec-level functions over character sequences; each executable parser
//! is proved to return exactly what its spec counterpart describes.

use vstd::prelude::*;
use vstd::string::*;
use crate::text::is_alnum_char;
use crate::text::is_name_char;
use crate::text::is_space_char;
use crate::types::ElementView;
use crate::types::Message;
use crate::types::MessageElement;
use crate::types::NumberExpression;
use crate::types::NumberFormatType;
use crate::types::NumberFormatView;
use crate::types::NumberView;
use crate::types::PluralCase;
use crate::types::PluralCaseView;
use crate::types::PluralExpression;
use crate::types::PluralSelector;
use crate::types::PluralView;
use crate::types::SelectCase;
use crate::types::SelectCaseView;
use crate::types::SelectExpression;
use crate::types::SelectView;
use crate::types::SelectorView;
use crate::types::selector_parse_spec;
use crate::types::selector_view;
use crate::types::element_view;
use crate::types::elements_view;
use crate::types::plural_case_view;
use crate::types::plural_cases_view;
use crate::types::select_case_view;
use crate::types::select_cases_view;
use crate::types::lemma_elements_view;
use crate::types::lemma_plural_cases_view;
use crate::types::lemma_select_cases_view;

verus! {

/// The template text does not match the grammar. `position` is where the
/// first unparseable construct begins.
#[derive(Debug, Clone, PartialEq)]
pub struct ParseError {
    pub position: usize,
}

// ---------------------------------------------------------------------------
// scanning primitives
// ---------------------------------------------------------------------------

/// End of the whitespace run starting at `pos`.
pub open spec fn ws_end(s: Seq<char>, pos: int) -> int
    decreases s.len() - pos,
{
    if 0 <= pos < s.len() && is_space_char(s[pos]) {
        ws_end(s, pos + 1)
    } else {
        pos
    }
}

/// End of the run of name characters starting at `pos`.
pub open spec fn name_end(s: Seq<char>, pos: int) -> int
    decreases s.len() - pos,
{
    if 0 <= pos < s.len() && is_name_char(s[pos]) {
        name_end(s, pos + 1)
    } else {
        pos
    }
}

/// End of the run of letters and digits starting at `pos`.
pub open spec fn alnum_end(s: Seq<char>, pos: int) -> int
    decreases s.len() - pos,
{
    if 0 <= pos < s.len() && is_alnum_char(s[pos]) {
        alnum_end(s, pos + 1)
    } else {
        pos
    }
}

/// End of the text run starting at `pos`: everything up to a `{`.
pub open spec fn text_end(s: Seq<char>, pos: int) -> int
    decreases s.len() - pos,
{
    if 0 <= pos < s.len() && s[pos] != '{' {
        text_end(s, pos + 1)
    } else {
        pos
    }
}

/// End of the text run starting at `pos` inside a case body: everything up
/// to a `{` or `}`.
pub open spec fn case_text_end(s: Seq<char>, pos: int) -> int
    decreases s.len() - pos,
{
    if 0 <= pos < s.len() && s[pos] != '{' && s[pos] != '}' {
        case_text_end(s, pos + 1)
    } else {
        pos
    }
}

fn skip_ws(s: &str, pos: usize) -> (r: usize)
    requires
        pos <= s@.len(),
    ensures
        r as int == ws_end(s@, pos as int),
        pos <= r <= s@.len(),
{
    let n = s.unicode_len();
    let mut i: usize = pos;
    while i < n
        invariant
            pos <= i <= n,
            n == s@.len(),
            ws_end(s@, pos as int) == ws_end(s@, i as int),
        decreases n - i,
    {
        let c = s.get_char(i);
        if !(c == ' ' || c == '\t' || c == '\n' || c == '\r') {
            return i;
        }
        i = i + 1;
    }
    i
}

fn scan_name(s: &str, pos: usize) -> (r: usize)
    requires
        pos <= s@.len(),
    ensures
        r as int == name_end(s@, pos as int),
        pos <= r <= s@.len(),
{
    let n = s.unicode_len();
    let mut i: usize = pos;
    while i < n
        invariant
            pos <= i <= n,
            n == s@.len(),
            name_end(s@, pos as int) == name_end(s@, i as int),
        decreases n - i,
    {
        let c = s.get_char(i);
        if !((c >= 'a' && c <= 'z') || (c >= 'A' && c <= 'Z') || (c >= '0' && c <= '9') || c
            == '_') {
            return i;
        }
        i = i + 1;
    }
    i
}

fn scan_alnum(s: &str, pos: usize) -> (r: usize)
    requires
        pos <= s@.len(),
    ensures
        r as int == alnum_end(s@, pos as int),
        pos <= r <= s@.len(),
{
    let n = s.unicode_len();
    let mut i: usize = pos;
    while i < n
        invariant
            pos <= i <= n,
            n == s@.len(),
            alnum_end(s@, pos as int) == alnum_end(s@, i as int),
        decreases n - i,
    {
        let c = s.get_char(i);
        if !((c >= 'a' && c <= 'z') || (c >= 'A' && c <= 'Z') || (c >= '0' && c <= '9')) {
            return i;
        }
        i = i + 1;
    }
    i
}

fn scan_text(s: &str, pos: usize) -> (r: usize)
    requires
        pos <= s@.len(),
    ensures
        r as int == text_end(s@, pos as int),
        pos <= r <= s@.len(),
{
    let n = s.unicode_len();
    let mut i: usize = pos;
    while i < n
        invariant
            pos <= i <= n,
            n == s@.len(),
            text_end(s@, pos as int) == text_end(s@, i as int),
        decreases n - i,
    {
        let c = s.get_char(i);
        if c == '{' {
            return i;
        }
        i = i + 1;
    }
    i
}

fn scan_case_text(s: &str, pos: usize) -> (r: usize)
    requires
        pos <= s@.len(),
    ensures
        r as int == case_text_end(s@, pos as int),
        pos <= r <= s@.len(),
{
    let n = s.unicode_len();
    let mut i: usize = pos;
    while i < n
        invariant
            pos <= i <= n,
            n == s@.len(),
            case_text_end(s@, pos as int) == case_text_end(s@, i as int),
        decreases n - i,
    {
        let c = s.get_char(i);
        if c == '{' || c == '}' {
            return i;
        }
        i = i + 1;
    }
    i
}

// ---------------------------------------------------------------------------
// fixed keywords
// ---------------------------------------------------------------------------

/// The characters of `t` occur in `s` starting at `pos`.
pub open spec fn tag_at(s: Seq<char>, pos: int, t: Seq<char>) -> bool {
    0 <= pos && pos + t.len() <= s.len() && s.subrange(pos, pos + t.len()) == t
}

fn match_tag(s: &str, pos: usize, t: &str) -> (r: bool)
    requires
        pos <= s@.len(),
    ensures
        r == tag_at(s@, pos as int, t@),
{
    let n = s.unicode_len();
    let tn = t.unicode_len();
    if tn > n - pos {
        return false;
    }
    let mut i: usize = 0;
    while i < tn
        invariant
            n == s@.len(),
            tn == t@.len(),
            pos + tn <= n,
            0 <= i <= tn,
            forall|j: int| 0 <= j < i ==> s@[pos + j] == t@[j],
        decreases tn - i,
    {
        if s.get_char(pos + i) != t.get_char(i) {
            proof {
                assert(s@.subrange(pos as int, pos + t@.len()) != t@) by {
                    assert(s@.subrange(pos as int, pos + t@.len())[i as int] == s@[pos + i]);
                }
            }
            return false;
        }
        i = i + 1;
    }
    proof {
        assert(s@.subrange(pos as int, pos + t@.len()) =~= t@);
    }
    true
}

// ---------------------------------------------------------------------------
// bare parameters: `{ name }`
// ---------------------------------------------------------------------------

pub open spec fn sp_simple_parameter(s: Seq<char>, pos: int) -> Option<(int, ElementView)> {
    if pos < s.len() && s[pos] == '{' {
        let a = ws_end(s, pos + 1);
        let b = name_end(s, a);
        if b > a {
            let c = ws_end(s, b);
            if c < s.len() && s[c] == '}' {
                Some((c + 1, ElementView::Parameter(s.subrange(a, b))))
            } else {
                None
            }
        } else {
            None
        }
    } else {
        None
    }
}

fn p_simple_parameter(s: &str, pos: usize) -> (r: Option<(usize, MessageElement)>)
    requires
        s@.len() <= usize::MAX,
        pos < s@.len(),
    ensures
        match r {
            Some(pe) => sp_simple_parameter(s@, pos as int) == Some((pe.0 as int, pe.1@))
                && pos < pe.0 <= s@.len(),
            None => sp_simple_parameter(s@, pos as int) is None,
        },
{
    if s.get_char(pos) != '{' {
        return None;
    }
    let a = skip_ws(s, pos + 1);
    let b = scan_name(s, a);
    if b <= a {
        return None;
    }
    let c = skip_ws(s, b);
    if c < s.unicode_len() && s.get_char(c) == '}' {
        let name = String::from_str(s.substring_char(a, b));
        Some((c + 1, MessageElement::Parameter(name)))
    } else {
        None
    }
}

// ---------------------------------------------------------------------------
// number expressions: `{name, number}` and `{name, number, kind}`
// ---------------------------------------------------------------------------

/// Reads an optional number format kind. Always succeeds; an unrecognized
/// kind consumes nothing and means plain number formatting.
pub open spec fn sp_number_format_type(s: Seq<char>, pos: int) -> (int, NumberFormatView) {
    if tag_at(s, pos, "integer"@) {
        (pos + 7, NumberFormatView::Integer)
    } else if tag_at(s, pos, "percent"@) {
        (pos + 7, NumberFormatView::Percent)
    } else if tag_at(s, pos, "currency"@) {
        let q = pos + 8;
        if q < s.len() && s[q] == '/' && alnum_end(s, q + 1) > q + 1 {
            (alnum_end(s, q + 1), NumberFormatView::Currency(s.subrange(q + 1, alnum_end(s, q + 1))))
        } else {
            (q, NumberFormatView::Currency("USD"@))
        }
    } else {
        (pos, NumberFormatView::Number)
    }
}

fn p_number_format_type(s: &str, pos: usize) -> (r: (usize, NumberFormatType))
    requires
        s@.len() <= usize::MAX,
        pos <= s@.len(),
    ensures
        sp_number_format_type(s@, pos as int) == (r.0 as int, crate::types::format_type_view(r.1)),
        pos <= r.0 <= s@.len(),
{
    if match_tag(s, pos, "integer") {
        proof {
            reveal_strlit("integer");
        }
        (pos + 7, NumberFormatType::Integer)
    } else if match_tag(s, pos, "percent") {
        proof {
            reveal_strlit("percent");
        }
        (pos + 7, NumberFormatType::Percent)
    } else if match_tag(s, pos, "currency") {
        proof {
            reveal_strlit("currency");
        }
        let q = pos + 8;
        if q < s.unicode_len() && s.get_char(q) == '/' {
            let j = scan_alnum(s, q + 1);
            if j > q + 1 {
                let code = String::from_str(s.substring_char(q + 1, j));
                return (j, NumberFormatType::Currency(code));
            }
        }
        let usd = String::from_str("USD");
        proof {
            reveal_strlit("USD");
        }
        (q, NumberFormatType::Currency(usd))
    } else {
        (pos, NumberFormatType::Number)
    }
}

pub open spec fn sp_number_expression(s: Seq<char>, pos: int) -> Option<(int, ElementView)> {
    if pos < s.len() && s[pos] == '{' {
        let a = ws_end(s, pos + 1);
        let b = name_end(s, a);
        if b > a {
            let c = ws_end(s, b);
            if c < s.len() && s[c] == ',' {
                let d = ws_end(s, c + 1);
                if tag_at(s, d, "number"@) {
                    let name = s.subrange(a, b);
                    let f = ws_end(s, d + 6);
                    if f < s.len() && s[f] == ',' {
                        let g = ws_end(s, f + 1);
                        let (h, ft) = sp_number_format_type(s, g);
                        if h < s.len() && s[h] == '}' {
                            Some(
                                (
                                    h + 1,
                                    ElementView::Number(
                                        NumberView { parameter: name, format_type: ft },
                                    ),
                                ),
                            )
                        } else {
                            None
                        }
                    } else {
                        if f < s.len() && s[f] == '}' {
                            Some(
                                (
                                    f + 1,
                                    ElementView::Number(
                                        NumberView {
                                            parameter: name,
                                            format_type: NumberFormatView::Number,
                                        },
                                    ),
                                ),
                            )
                        } else {
                            None
                        }
                    }
                } else {
                    None
                }
            } else {
                None
            }
        } else {
            None
        }
    } else {
        None
    }
}

fn p_number_expression(s: &str, pos: usize) -> (r: Option<(usize, MessageElement)>)
    requires
        s@.len() <= usize::MAX,
        pos < s@.len(),
    ensures
        match r {
            Some(pe) => sp_number_expression(s@, pos as int) == Some((pe.0 as int, pe.1@))
                && pos < pe.0 <= s@.len(),
            None => sp_number_expression(s@, pos as int) is None,
        },
{
    let n = s.unicode_len();
    if s.get_char(pos) != '{' {
        return None;
    }
    let a = skip_ws(s, pos + 1);
    let b = scan_name(s, a);
    if b <= a {
        return None;
    }
    let c = skip_ws(s, b);
    if !(c < n && s.get_char(c) == ',') {
        return None;
    }
    let d = skip_ws(s, c + 1);
    if !match_tag(s, d, "number") {
        return None;
    }
    proof {
        reveal_strlit("number");
    }
    let name = String::from_str(s.substring_char(a, b));
    let f = skip_ws(s, d + 6);
    if f < n && s.get_char(f) == ',' {
        let g = skip_ws(s, f + 1);
        let (h, ft) = p_number_format_type(s, g);
        if h < n && s.get_char(h) == '}' {
            Some((h + 1, MessageElement::Number(NumberExpression { parameter: name, format_type: ft })))
        } else {
            None
        }
    } else {
        if f < n && s.get_char(f) == '}' {
            Some(
                (
                    f + 1,
                    MessageElement::Number(
                        NumberExpression { parameter: name, format_type: NumberFormatType::Number },
                    ),
                ),
            )
        } else {
            None
        }
    }
}

// ---------------------------------------------------------------------------
// text runs
// ---------------------------------------------------------------------------

pub open spec fn sp_text(s: Seq<char>, pos: int) -> Option<(int, ElementView)> {
    if text_end(s, pos) > pos {
        Some((text_end(s, pos), ElementView::Text(s.subrange(pos, text_end(s, pos)))))
    } else {
        None
    }
}

fn p_text(s: &str, pos: usize) -> (r: Option<(usize, MessageElement)>)
    requires
        s@.len() <= usize::MAX,
        pos <= s@.len(),
    ensures
        match r {
            Some(pe) => sp_text(s@, pos as int) == Some((pe.0 as int, pe.1@)) && pos < pe.0
                <= s@.len(),
            None => sp_text(s@, pos as int) is None,
        },
{
    let j = scan_text(s, pos);
    if j > pos {
        Some((j, MessageElement::Text(String::from_str(s.substring_char(pos, j)))))
    } else {
        None
    }
}

pub open spec fn sp_case_text(s: Seq<char>, pos: int) -> Option<(int, ElementView)> {
    if case_text_end(s, pos) > pos {
        Some((case_text_end(s, pos), ElementView::Text(s.subrange(pos, case_text_end(s, pos)))))
    } else {
        None
    }
}

fn p_case_text(s: &str, pos: usize) -> (r: Option<(usize, MessageElement)>)
    requires
        s@.len() <= usize::MAX,
        pos <= s@.len(),
    ensures
        match r {
            Some(pe) => sp_case_text(s@, pos as int) == Some((pe.0 as int, pe.1@)) && pos < pe.0
                <= s@.len(),
            None => sp_case_text(s@, pos as int) is None,
        },
{
    let j = scan_case_text(s, pos);
    if j > pos {
        Some((j, MessageElement::Text(String::from_str(s.substring_char(pos, j)))))
    } else {
        None
    }
}

// ---------------------------------------------------------------------------
// case bodies: braced element lists
// ---------------------------------------------------------------------------

pub open spec fn sp_case_content(s: Seq<char>, pos: int) -> Option<(int, Seq<ElementView>)>
    decreases s.len() - pos, 1int,
{
    if pos < s.len() && s[pos] == '{' {
        let pe = sp_case_elements(s, pos + 1);
        if pe.0 < s.len() && s[pe.0] == '}' {
            Some((pe.0 + 1, pe.1))
        } else {
            None
        }
    } else {
        None
    }
}

/// As many case-body elements as can be read from `pos` on.
pub open spec fn sp_case_elements(s: Seq<char>, pos: int) -> (int, Seq<ElementView>)
    decreases s.len() - pos, 3int,
{
    match sp_case_element(s, pos) {
        Some(pe) => if pos < pe.0 <= s.len() {
            let rest = sp_case_elements(s, pe.0);
            (rest.0, seq![pe.1] + rest.1)
        } else {
            (pos, Seq::empty())
        },
        None => (pos, Seq::empty()),
    }
}

pub open spec fn sp_case_element(s: Seq<char>, pos: int) -> Option<(int, ElementView)>
    decreases s.len() - pos, 2int,
{
    if sp_number_expression(s, pos) is Some {
        sp_number_expression(s, pos)
    } else if sp_select_expression(s, pos) is Some {
        sp_select_expression(s, pos)
    } else if sp_plural_expression(s, pos) is Some {
        sp_plural_expression(s, pos)
    } else if sp_simple_parameter(s, pos) is Some {
        sp_simple_parameter(s, pos)
    } else {
        sp_case_text(s, pos)
    }
}

// ---------------------------------------------------------------------------
// select expressions
// ---------------------------------------------------------------------------

pub open spec fn sp_select_case(s: Seq<char>, pos: int) -> Option<(int, SelectCaseView)>
    decreases s.len() - pos, 2int,
{
    let a = ws_end(s, pos);
    let b = name_end(s, a);
    if b > a {
        let c = ws_end(s, b);
        if pos <= c <= s.len() {
            match sp_case_content(s, c) {
                Some(dm) => Some(
                    (dm.0, SelectCaseView { selector: s.subrange(a, b), message: dm.1 }),
                ),
                None => None,
            }
        } else {
            None
        }
    } else {
        None
    }
}

/// As many select cases as can be read from `pos` on.
pub open spec fn sp_select_cases(s: Seq<char>, pos: int) -> (int, Seq<SelectCaseView>)
    decreases s.len() - pos, 3int,
{
    match sp_select_case(s, pos) {
        Some(pc) => if pos < pc.0 <= s.len() {
            let rest = sp_select_cases(s, pc.0);
            (rest.0, seq![pc.1] + rest.1)
        } else {
            (pos, Seq::empty())
        },
        None => (pos, Seq::empty()),
    }
}

pub open spec fn sp_select_expression(s: Seq<char>, pos: int) -> Option<(int, ElementView)>
    decreases s.len() - pos, 1int,
{
    if pos < s.len() && s[pos] == '{' {
        let a = ws_end(s, pos + 1);
        let b = name_end(s, a);
        if b > a {
            let c = ws_end(s, b);
            if c < s.len() && s[c] == ',' {
                let d = ws_end(s, c + 1);
                if tag_at(s, d, "select"@) {
                    let e = ws_end(s, d + 6);
                    if e < s.len() && s[e] == ',' {
                        let g = ws_end(s, e + 1);
                        if pos < g <= s.len() {
                            let hc = sp_select_cases(s, g);
                            if hc.1.len() >= 1 {
                                let i = ws_end(s, hc.0);
                                if i < s.len() && s[i] == '}' {
                                    Some(
                                        (
                                            i + 1,
                                            ElementView::Select(
                                                SelectView {
                                                    parameter: s.subrange(a, b),
                                                    cases: hc.1,
                                                },
                                            ),
                                        ),
                                    )
                                } else {
                                    None
                                }
                            } else {
                                None
                            }
                        } else {
                            None
                        }
                    } else {
                        None
                    }
                } else {
                    None
                }
            } else {
                None
            }
        } else {
            None
        }
    } else {
        None
    }
}

// ---------------------------------------------------------------------------
// plural expressions
// ---------------------------------------------------------------------------

pub open spec fn sp_plural_case(s: Seq<char>, pos: int) -> Option<(int, PluralCaseView)>
    decreases s.len() - pos, 2int,
{
    let a = ws_end(s, pos);
    let b = alnum_end(s, a);
    if b > a {
        let c = ws_end(s, b);
        if pos <= c <= s.len() {
            match sp_case_content(s, c) {
                Some(dm) => {
                    let sel = match selector_parse_spec(s.subrange(a, b)) {
                        Some(sv) => sv,
                        None => SelectorView::Other,
                    };
                    Some((dm.0, PluralCaseView { selector: sel, message: dm.1 }))
                },
                None => None,
            }
        } else {
            None
        }
    } else {
        None
    }
}

/// As many plural cases as can be read from `pos` on.
pub open spec fn sp_plural_cases(s: Seq<char>, pos: int) -> (int, Seq<PluralCaseView>)
    decreases s.len() - pos, 3int,
{
    match sp_plural_case(s, pos) {
        Some(pc) => if pos < pc.0 <= s.len() {
            let rest = sp_plural_cases(s, pc.0);
            (rest.0, seq![pc.1] + rest.1)
        } else {
            (pos, Seq::empty())
        },
        None => (pos, Seq::empty()),
    }
}

pub open spec fn sp_plural_expression(s: Seq<char>, pos: int) -> Option<(int, ElementView)>
    decreases s.len() - pos, 1int,
{
    if pos < s.len() && s[pos] == '{' {
        let a = ws_end(s, pos + 1);
        let b = name_end(s, a);
        if b > a {
            let c = ws_end(s, b);
            if c < s.len() && s[c] == ',' {
                let d = ws_end(s, c + 1);
                if tag_at(s, d, "plural"@) {
                    let e = ws_end(s, d + 6);
                    if e < s.len() && s[e] == ',' {
                        let g = ws_end(s, e + 1);
                        if pos < g <= s.len() {
                            let hc = sp_plural_cases(s, g);
                            if hc.1.len() >= 1 {
                                let i = ws_end(s, hc.0);
                                if i < s.len() && s[i] == '}' {
                                    Some(
                                        (
                                            i + 1,
                                            ElementView::Plural(
                                                PluralView {
                                                    parameter: s.subrange(a, b),
                                                    cases: hc.1,
                                                },
                                            ),
                                        ),
                                    )
                                } else {
                                    None
                                }
                            } else {
                                None
                            }
                        } else {
                            None
                        }
                    } else {
                        None
                    }
                } else {
                    None
                }
            } else {
                None
            }
        } else {
            None
        }
    } else {
        None
    }
}

// ---------------------------------------------------------------------------
// top level
// ---------------------------------------------------------------------------

pub open spec fn sp_element(s: Seq<char>, pos: int) -> Option<(int, ElementView)>
    decreases s.len() - pos, 2int,
{
    if sp_number_expression(s, pos) is Some {
        sp_number_expression(s, pos)
    } else if sp_select_expression(s, pos) is Some {
        sp_select_expression(s, pos)
    } else if sp_plural_expression(s, pos) is Some {
        sp_plural_expression(s, pos)
    } else if sp_simple_parameter(s, pos) is Some {
        sp_simple_parameter(s, pos)
    } else {
        sp_text(s, pos)
    }
}

/// As many top-level elements as can be read from `pos` on.
pub open spec fn sp_elements(s: Seq<char>, pos: int) -> (int, Seq<ElementView>)
    decreases s.len() - pos, 3int,
{
    match sp_element(s, pos) {
        Some(pe) => if pos < pe.0 <= s.len() {
            let rest = sp_elements(s, pe.0);
            (rest.0, seq![pe.1] + rest.1)
        } else {
            (pos, Seq::empty())
        },
        None => (pos, Seq::empty()),
    }
}

/// The language of templates: the element list read from the start, accepted
/// only when it consumes the whole text.
pub open spec fn parse_message_spec(s: Seq<char>) -> Option<Seq<ElementView>> {
    if sp_elements(s, 0).0 == s.len() {
        Some(sp_elements(s, 0).1)
    } else {
        None
    }
}

// ---------------------------------------------------------------------------
// executable recursive descent
// ---------------------------------------------------------------------------

fn p_case_content(s: &str, pos: usize) -> (r: Option<(usize, Message)>)
    requires
        s@.len() <= usize::MAX,
        pos <= s@.len(),
    ensures
        match r {
            Some(pm) => sp_case_content(s@, pos as int) == Some((pm.0 as int, pm.1@)) && pos < pm.0
                <= s@.len(),
            None => sp_case_content(s@, pos as int) is None,
        },
    decreases s@.len() - pos, 1int,
{
    let n = s.unicode_len();
    if !(pos < n && s.get_char(pos) == '{') {
        return None;
    }
    let pe = p_case_elements(s, pos + 1);
    let p2 = pe.0;
    if p2 < n && s.get_char(p2) == '}' {
        Some((p2 + 1, Message::new(pe.1)))
    } else {
        None
    }
}

fn p_case_elements(s: &str, pos: usize) -> (r: (usize, Vec<MessageElement>))
    requires
        s@.len() <= usize::MAX,
        pos <= s@.len(),
    ensures
        sp_case_elements(s@, pos as int).0 == r.0 as int,
        sp_case_elements(s@, pos as int).1 == elements_view(r.1@),
        pos <= r.0 <= s@.len(),
    decreases s@.len() - pos, 3int,
{
    let n = s.unicode_len();
    if pos == n {
        proof {
            assert(sp_case_element(s@, pos as int) is None);
            assert(elements_view(Seq::<MessageElement>::empty()) =~= Seq::<ElementView>::empty());
        }
        return (pos, Vec::new());
    }
    match p_case_element(s, pos) {
        None => {
            proof {
                assert(elements_view(Seq::<MessageElement>::empty()) =~= Seq::<
                    ElementView,
                >::empty());
            }
            (pos, Vec::new())
        },
        Some(pe) => {
            let p2 = pe.0;
            let rr = p_case_elements(s, p2);
            let p3 = rr.0;
            let mut rest = rr.1;
            let ghost rv = rest@;
            rest.insert(0, pe.1);
            proof {
                let cs = rest@;
                assert(cs[0] == pe.1);
                assert(cs.subrange(1, cs.len() as int) =~= rv);
            }
            (p3, rest)
        },
    }
}

fn p_case_element(s: &str, pos: usize) -> (r: Option<(usize, MessageElement)>)
    requires
        s@.len() <= usize::MAX,
        pos < s@.len(),
    ensures
        match r {
            Some(pe) => sp_case_element(s@, pos as int) == Some((pe.0 as int, pe.1@)) && pos < pe.0
                <= s@.len(),
            None => sp_case_element(s@, pos as int) is None,
        },
    decreases s@.len() - pos, 2int,
{
    let rn = p_number_expression(s, pos);
    if rn.is_some() {
        return rn;
    }
    let rs = p_select_expression(s, pos);
    if rs.is_some() {
        return rs;
    }
    let rp = p_plural_expression(s, pos);
    if rp.is_some() {
        return rp;
    }
    let rb = p_simple_parameter(s, pos);
    if rb.is_some() {
        return rb;
    }
    p_case_text(s, pos)
}

fn p_select_case(s: &str, pos: usize) -> (r: Option<(usize, SelectCase)>)
    requires
        s@.len() <= usize::MAX,
        pos <= s@.len(),
    ensures
        match r {
            Some(pc) => sp_select_case(s@, pos as int) == Some(
                (pc.0 as int, select_case_view(pc.1)),
            ) && pos < pc.0 <= s@.len(),
            None => sp_select_case(s@, pos as int) is None,
        },
    decreases s@.len() - pos, 2int,
{
    let a = skip_ws(s, pos);
    let b = scan_name(s, a);
    if b <= a {
        return None;
    }
    let c = skip_ws(s, b);
    match p_case_content(s, c) {
        Some(dm) => {
            let sel = String::from_str(s.substring_char(a, b));
            Some((dm.0, SelectCase { selector: sel, message: dm.1 }))
        },
        None => None,
    }
}

fn p_select_cases(s: &str, pos: usize) -> (r: (usize, Vec<SelectCase>))
    requires
        s@.len() <= usize::MAX,
        pos <= s@.len(),
    ensures
        sp_select_cases(s@, pos as int).0 == r.0 as int,
        sp_select_cases(s@, pos as int).1 == select_cases_view(r.1@),
        pos <= r.0 <= s@.len(),
    decreases s@.len() - pos, 3int,
{
    match p_select_case(s, pos) {
        None => {
            proof {
                assert(select_cases_view(Seq::<SelectCase>::empty()) =~= Seq::<
                    SelectCaseView,
                >::empty());
            }
            (pos, Vec::new())
        },
        Some(pc) => {
            let p2 = pc.0;
            let rr = p_select_cases(s, p2);
            let p3 = rr.0;
            let mut rest = rr.1;
            let ghost rv = rest@;
            rest.insert(0, pc.1);
            proof {
                let cs = rest@;
                assert(cs[0] == pc.1);
                assert(cs.subrange(1, cs.len() as int) =~= rv);
            }
            (p3, rest)
        },
    }
}

fn p_select_expression(s: &str, pos: usize) -> (r: Option<(usize, MessageElement)>)
    requires
        s@.len() <= usize::MAX,
        pos < s@.len(),
    ensures
        match r {
            Some(pe) => sp_select_expression(s@, pos as int) == Some((pe.0 as int, pe.1@)) && pos
                < pe.0 <= s@.len(),
            None => sp_select_expression(s@, pos as int) is None,
        },
    decreases s@.len() - pos, 1int,
{
    let n = s.unicode_len();
    if s.get_char(pos) != '{' {
        return None;
    }
    let a = skip_ws(s, pos + 1);
    let b = scan_name(s, a);
    if b <= a {
        return None;
    }
    let c = skip_ws(s, b);
    if !(c < n && s.get_char(c) == ',') {
        return None;
    }
    let d = skip_ws(s, c + 1);
    if !match_tag(s, d, "select") {
        return None;
    }
    proof {
        reveal_strlit("select");
    }
    let e = skip_ws(s, d + 6);
    if !(e < n && s.get_char(e) == ',') {
        return None;
    }
    let g = skip_ws(s, e + 1);
    let hc = p_select_cases(s, g);
    let h = hc.0;
    let cases = hc.1;
    proof {
        lemma_select_cases_view(cases@);
    }
    if cases.len() == 0 {
        return None;
    }
    let i2 = skip_ws(s, h);
    if i2 < n && s.get_char(i2) == '}' {
        let name = String::from_str(s.substring_char(a, b));
        Some((i2 + 1, MessageElement::Select(SelectExpression { parameter: name, cases })))
    } else {
        None
    }
}

fn p_plural_case(s: &str, pos: usize) -> (r: Option<(usize, PluralCase)>)
    requires
        s@.len() <= usize::MAX,
        pos <= s@.len(),
    ensures
        match r {
            Some(pc) => sp_plural_case(s@, pos as int) == Some(
                (pc.0 as int, plural_case_view(pc.1)),
            ) && pos < pc.0 <= s@.len(),
            None => sp_plural_case(s@, pos as int) is None,
        },
    decreases s@.len() - pos, 2int,
{
    let a = skip_ws(s, pos);
    let b = scan_alnum(s, a);
    if b <= a {
        return None;
    }
    let c = skip_ws(s, b);
    match p_case_content(s, c) {
        Some(dm) => {
            let tok = s.substring_char(a, b);
            let sel = match PluralSelector::parse(tok) {
                Some(x) => x,
                None => PluralSelector::Other,
            };
            Some((dm.0, PluralCase { selector: sel, message: dm.1 }))
        },
        None => None,
    }
}

fn p_plural_cases(s: &str, pos: usize) -> (r: (usize, Vec<PluralCase>))
    requires
        s@.len() <= usize::MAX,
        pos <= s@.len(),
    ensures
        sp_plural_cases(s@, pos as int).0 == r.0 as int,
        sp_plural_cases(s@, pos as int).1 == plural_cases_view(r.1@),
        pos <= r.0 <= s@.len(),
    decreases s@.len() - pos, 3int,
{
    match p_plural_case(s, pos) {
        None => {
            proof {
                assert(plural_cases_view(Seq::<PluralCase>::empty()) =~= Seq::<
                    PluralCaseView,
                >::empty());
            }
            (pos, Vec::new())
        },
        Some(pc) => {
            let p2 = pc.0;
            let rr = p_plural_cases(s, p2);
            let p3 = rr.0;
            let mut rest = rr.1;
            let ghost rv = rest@;
            rest.insert(0, pc.1);
            proof {
                let cs = rest@;
                assert(cs[0] == pc.1);
                assert(cs.subrange(1, cs.len() as int) =~= rv);
            }
            (p3, rest)
        },
    }
}

fn p_plural_expression(s: &str, pos: usize) -> (r: Option<(usize, MessageElement)>)
    requires
        s@.len() <= usize::MAX,
        pos < s@.len(),
    ensures
        match r {
            Some(pe) => sp_plural_expression(s@, pos as int) == Some((pe.0 as int, pe.1@)) && pos
                < pe.0 <= s@.len(),
            None => sp_plural_expression(s@, pos as int) is None,
        },
    decreases s@.len() - pos, 1int,
{
    let n = s.unicode_len();
    if s.get_char(pos) != '{' {
        return None;
    }
    let a = skip_ws(s, pos + 1);
    let b = scan_name(s, a);
    if b <= a {
        return None;
    }
    let c = skip_ws(s, b);
    if !(c < n && s.get_char(c) == ',') {
        return None;
    }
    let d = skip_ws(s, c + 1);
    if !match_tag(s, d, "plural") {
        return None;
    }
    proof {
        reveal_strlit("plural");
    }
    let e = skip_ws(s, d + 6);
    if !(e < n && s.get_char(e) == ',') {
        return None;
    }
    let g = skip_ws(s, e + 1);
    let hc = p_plural_cases(s, g);
    let h = hc.0;
    let cases = hc.1;
    proof {
        lemma_plural_cases_view(cases@);
    }
    if cases.len() == 0 {
        return None;
    }
    let i2 = skip_ws(s, h);
    if i2 < n && s.get_char(i2) == '}' {
        let name = String::from_str(s.substring_char(a, b));
        Some((i2 + 1, MessageElement::Plural(PluralExpression { parameter: name, cases })))
    } else {
        None
    }
}

fn p_element(s: &str, pos: usize) -> (r: Option<(usize, MessageElement)>)
    requires
        s@.len() <= usize::MAX,
        pos < s@.len(),
    ensures
        match r {
            Some(pe) => sp_element(s@, pos as int) == Some((pe.0 as int, pe.1@)) && pos < pe.0
                <= s@.len(),
            None => sp_element(s@, pos as int) is None,
        },
    decreases s@.len() - pos, 2int,
{
    let rn = p_number_expression(s, pos);
    if rn.is_some() {
        return rn;
    }
    let rs = p_select_expression(s, pos);
    if rs.is_some() {
        return rs;
    }
    let rp = p_plural_expression(s, pos);
    if rp.is_some() {
        return rp;
    }
    let rb = p_simple_parameter(s, pos);
    if rb.is_some() {
        return rb;
    }
    p_text(s, pos)
}

fn p_elements(s: &str, pos: usize) -> (r: (usize, Vec<MessageElement>))
    requires
        s@.len() <= usize::MAX,
        pos <= s@.len(),
    ensures
        sp_elements(s@, pos as int).0 == r.0 as int,
        sp_elements(s@, pos as int).1 == elements_view(r.1@),
        pos <= r.0 <= s@.len(),
    decreases s@.len() - pos, 3int,
{
    let n = s.unicode_len();
    if pos == n {
        proof {
            assert(sp_element(s@, pos as int) is None);
            assert(elements_view(Seq::<MessageElement>::empty()) =~= Seq::<ElementView>::empty());
        }
        return (pos, Vec::new());
    }
    match p_element(s, pos) {
        None => {
            proof {
                assert(elements_view(Seq::<MessageElement>::empty()) =~= Seq::<
                    ElementView,
                >::empty());
            }
            (pos, Vec::new())
        },
        Some(pe) => {
            let p2 = pe.0;
            let rr = p_elements(s, p2);
            let p3 = rr.0;
            let mut rest = rr.1;
            let ghost rv = rest@;
            rest.insert(0, pe.1);
            proof {
                let cs = rest@;
                assert(cs[0] == pe.1);
                assert(cs.subrange(1, cs.len() as int) =~= rv);
            }
            (p3, rest)
        },
    }
}

/// Parses a whole template. The text must match the grammar and be consumed
/// completely; otherwise the position where reading stopped is reported.
pub fn parse_message(input: &str) -> (r: Result<Message, ParseError>)
    ensures
        match r {
            Ok(m) => parse_message_spec(input@) == Some(m@),
            Err(e) => parse_message_spec(input@) is None && e.position as int == sp_elements(
                input@,
                0,
            ).0,
        },
{
    let n = input.unicode_len();
    let pe = p_elements(input, 0);
    if pe.0 == n {
        Ok(Message::new(pe.1))
    } else {
        Err(ParseError { position: pe.0 })
    }
}

} // verus!
