//! The formatter: walks a parsed message, resolves plural and select cases
//! against the bound parameters, renders numbers through the number
//! formatting service, and concatenates the output. The spec-level
//! evaluator `eval_elements` is the exact semantics: `format_message`
//! returns precisely what it describes, for every input.

use vstd::prelude::*;
use vstd::string::*;
use crate::decimal::DecimalValue;
use crate::decimal::DecimalView;
use crate::decimal::dec_of_int;
use crate::decimal::decimal_from_i64;
use crate::decimal::parse_decimal;
use crate::decimal::parse_decimal_spec;
use crate::numfmt::format_number;
use crate::numfmt::number_output;
use crate::text::dec_str;
use crate::text::i64_to_string;
use crate::text::parse_i64;
use crate::text::parse_i64_spec;
use crate::text::str_eq;
use crate::types::ElementView;
use crate::types::Message;
use crate::types::MessageElement;
use crate::types::ParameterValue;
use crate::types::Parameters;
use crate::types::PluralCase;
use crate::types::PluralCaseView;
use crate::types::PluralExpression;
use crate::types::PluralSelector;
use crate::types::SelectCase;
use crate::types::SelectCaseView;
use crate::types::SelectExpression;
use crate::types::SelectorView;
use crate::types::ValueView;
use crate::types::element_view;
use crate::types::lemma_elements_view;
use crate::types::lemma_plural_cases_view;
use crate::types::lemma_select_cases_view;
use crate::types::lookup;
use crate::types::plural_case_view;
use crate::types::plural_cases_view;
use crate::types::select_case_view;
use crate::types::select_cases_view;
use crate::types::selector_view;

verus! {

/// A formatting failure, carrying the name of the offending parameter.
#[derive(Debug, Clone, PartialEq)]
pub enum FormatError {
    MissingParameter(String),
    InvalidParameterType(String),
}

/// What evaluating part of a message yields: rendered text, or the first
/// failure in document order.
pub enum EvalOutcome {
    Rendered(Seq<char>),
    MissingParameter(Seq<char>),
    InvalidParameterType(Seq<char>),
}

// ---------------------------------------------------------------------------
// case selection
// ---------------------------------------------------------------------------

/// The fixed category rule: 0 is `zero`, 1 is `one`, 2 is `two`, anything
/// else is `other`.
pub open spec fn plural_category(count: int) -> SelectorView {
    if count == 0 {
        SelectorView::Zero
    } else if count == 1 {
        SelectorView::One
    } else if count == 2 {
        SelectorView::Two
    } else {
        SelectorView::Other
    }
}

pub open spec fn first_exact_index(cases: Seq<PluralCaseView>, count: int) -> Option<int>
    decreases cases.len(),
{
    if cases.len() == 0 {
        None
    } else if cases[0].selector == SelectorView::Exact(count) {
        Some(0)
    } else {
        shift_index(first_exact_index(cases.subrange(1, cases.len() as int), count), 1)
    }
}

pub open spec fn first_selector_index(cases: Seq<PluralCaseView>, sel: SelectorView) -> Option<int>
    decreases cases.len(),
{
    if cases.len() == 0 {
        None
    } else if cases[0].selector == sel {
        Some(0)
    } else {
        shift_index(first_selector_index(cases.subrange(1, cases.len() as int), sel), 1)
    }
}

pub open spec fn first_string_index(cases: Seq<SelectCaseView>, value: Seq<char>) -> Option<int>
    decreases cases.len(),
{
    if cases.len() == 0 {
        None
    } else if cases[0].selector == value {
        Some(0)
    } else {
        shift_index(first_string_index(cases.subrange(1, cases.len() as int), value), 1)
    }
}

pub open spec fn shift_index(o: Option<int>, k: int) -> Option<int> {
    match o {
        Some(i) => Some(i + k),
        None => None,
    }
}

/// Which plural case is used: an exact match first, then the category rule,
/// then the first `other` case; `None` renders nothing.
pub open spec fn plural_choice(cases: Seq<PluralCaseView>, count: int) -> Option<int> {
    match first_exact_index(cases, count) {
        Some(i) => Some(i),
        None => match first_selector_index(cases, plural_category(count)) {
            Some(i) => Some(i),
            None => first_selector_index(cases, SelectorView::Other),
        },
    }
}

/// Which select case is used: the first exact string match, then the first
/// case whose selector is literally `other`; `None` renders nothing.
pub open spec fn select_choice(cases: Seq<SelectCaseView>, value: Seq<char>) -> Option<int> {
    match first_string_index(cases, value) {
        Some(i) => Some(i),
        None => first_string_index(cases, "other"@),
    }
}

// ---------------------------------------------------------------------------
// hash substitution
// ---------------------------------------------------------------------------

/// Every `#` in `s` replaced by `rep`.
pub open spec fn replace_hash(s: Seq<char>, rep: Seq<char>) -> Seq<char>
    decreases s.len(),
{
    if s.len() == 0 {
        Seq::empty()
    } else if s[0] == '#' {
        rep + replace_hash(s.subrange(1, s.len() as int), rep)
    } else {
        seq![s[0]] + replace_hash(s.subrange(1, s.len() as int), rep)
    }
}

/// Replaces every `#` in the rendered text with the count in base 10. This
/// is purely textual and runs over fully rendered output, so a `#` from
/// literal text is replaced just the same.
pub fn substitute_hash_placeholder(text: &str, count: i64) -> (r: String)
    ensures
        r@ == replace_hash(text@, dec_str(count as int)),
{
    let rep = i64_to_string(count);
    let n = text.unicode_len();
    let mut out = String::new();
    let mut i: usize = 0;
    proof {
        assert(text@.subrange(0, n as int) =~= text@);
    }
    while i < n
        invariant
            0 <= i <= n,
            n == text@.len(),
            rep@ == dec_str(count as int),
            replace_hash(text@, rep@) == out@ + replace_hash(
                text@.subrange(i as int, n as int),
                rep@,
            ),
        decreases n - i,
    {
        let ghost out_old = out@;
        let ghost suf = text@.subrange(i as int, n as int);
        let c = text.get_char(i);
        if c == '#' {
            out.append(rep.as_str());
        } else {
            let piece = text.substring_char(i, i + 1);
            proof {
                assert(piece@ =~= seq![text@[i as int]]);
            }
            out.append(piece);
        }
        proof {
            assert(suf[0] == text@[i as int]);
            assert(suf.subrange(1, suf.len() as int) =~= text@.subrange(i + 1, n as int));
            if c == '#' {
                assert(out@ + replace_hash(text@.subrange(i + 1, n as int), rep@) =~= out_old + (
                rep@ + replace_hash(text@.subrange(i + 1, n as int), rep@)));
            } else {
                assert(out@ + replace_hash(text@.subrange(i + 1, n as int), rep@) =~= out_old + (
                seq![suf[0]] + replace_hash(text@.subrange(i + 1, n as int), rep@)));
            }
        }
        i = i + 1;
    }
    proof {
        assert(text@.subrange(n as int, n as int).len() == 0);
        assert(out@ + replace_hash(text@.subrange(n as int, n as int), rep@) =~= out@);
    }
    out
}

// ---------------------------------------------------------------------------
// the evaluator
// ---------------------------------------------------------------------------

/// The plural count a bound value stands for.
pub open spec fn count_of_value(v: ValueView) -> Option<int> {
    match v {
        ValueView::Int(n) => Some(n),
        ValueView::Str(s) => parse_i64_spec(s),
    }
}

/// The decimal a bound value stands for in a number context.
pub open spec fn decimal_of_value(v: ValueView) -> Option<DecimalView> {
    match v {
        ValueView::Int(n) => Some(dec_of_int(n)),
        ValueView::Str(s) => parse_decimal_spec(s),
    }
}

pub open spec fn combine_outcome(first: EvalOutcome, rest: EvalOutcome) -> EvalOutcome {
    match first {
        EvalOutcome::Rendered(s1) => match rest {
            EvalOutcome::Rendered(s2) => EvalOutcome::Rendered(s1 + s2),
            e => e,
        },
        e => e,
    }
}

pub open spec fn append_outcome(prefix: Seq<char>, o: EvalOutcome) -> EvalOutcome {
    match o {
        EvalOutcome::Rendered(s) => EvalOutcome::Rendered(prefix + s),
        e => e,
    }
}

/// Evaluates one element under the bindings `ps` and the locale.
pub open spec fn eval_element(
    e: ElementView,
    ps: Seq<(Seq<char>, ValueView)>,
    locale: Seq<char>,
) -> EvalOutcome
    decreases e,
{
    match e {
        ElementView::Text(t) => EvalOutcome::Rendered(t),
        ElementView::Parameter(name) => match lookup(ps, name) {
            Some(ValueView::Str(s)) => EvalOutcome::Rendered(s),
            Some(ValueView::Int(n)) => EvalOutcome::Rendered(dec_str(n)),
            None => EvalOutcome::MissingParameter(name),
        },
        ElementView::Plural(pv) => match lookup(ps, pv.parameter) {
            None => EvalOutcome::MissingParameter(pv.parameter),
            Some(v) => match count_of_value(v) {
                None => EvalOutcome::InvalidParameterType(pv.parameter),
                Some(count) => match plural_choice(pv.cases, count) {
                    None => EvalOutcome::Rendered(Seq::empty()),
                    Some(i) => if 0 <= i < pv.cases.len() {
                        match eval_elements(pv.cases[i].message, ps, locale) {
                            EvalOutcome::Rendered(sub) => EvalOutcome::Rendered(
                                replace_hash(sub, dec_str(count)),
                            ),
                            err => err,
                        }
                    } else {
                        EvalOutcome::Rendered(Seq::empty())
                    },
                },
            },
        },
        ElementView::Select(sv) => match lookup(ps, sv.parameter) {
            None => EvalOutcome::MissingParameter(sv.parameter),
            Some(ValueView::Int(_)) => EvalOutcome::InvalidParameterType(sv.parameter),
            Some(ValueView::Str(v)) => match select_choice(sv.cases, v) {
                None => EvalOutcome::Rendered(Seq::empty()),
                Some(i) => if 0 <= i < sv.cases.len() {
                    eval_elements(sv.cases[i].message, ps, locale)
                } else {
                    EvalOutcome::Rendered(Seq::empty())
                },
            },
        },
        ElementView::Number(nv) => match lookup(ps, nv.parameter) {
            None => EvalOutcome::MissingParameter(nv.parameter),
            Some(v) => match decimal_of_value(v) {
                None => EvalOutcome::InvalidParameterType(nv.parameter),
                Some(d) => match number_output(nv.format_type, d, locale) {
                    Some(t) => EvalOutcome::Rendered(t),
                    None => EvalOutcome::InvalidParameterType(nv.parameter),
                },
            },
        },
    }
}

/// Evaluates a list of elements in order, concatenating rendered text and
/// stopping at the first failure.
pub open spec fn eval_elements(
    es: Seq<ElementView>,
    ps: Seq<(Seq<char>, ValueView)>,
    locale: Seq<char>,
) -> EvalOutcome
    decreases es,
{
    if es.len() == 0 {
        EvalOutcome::Rendered(Seq::empty())
    } else {
        combine_outcome(
            eval_element(es[0], ps, locale),
            eval_elements(es.subrange(1, es.len() as int), ps, locale),
        )
    }
}

// ---------------------------------------------------------------------------
// structural depth, the termination measure of the formatter
// ---------------------------------------------------------------------------

pub open spec fn element_depth(e: ElementView) -> nat
    decreases e,
{
    match e {
        ElementView::Plural(pv) => 1 + plural_cases_depth(pv.cases),
        ElementView::Select(sv) => 1 + select_cases_depth(sv.cases),
        _ => 0,
    }
}

pub open spec fn elements_depth(es: Seq<ElementView>) -> nat
    decreases es,
{
    if es.len() == 0 {
        0
    } else {
        let hd = element_depth(es[0]);
        let tl = elements_depth(es.subrange(1, es.len() as int));
        if hd > tl {
            hd
        } else {
            tl
        }
    }
}

pub open spec fn plural_cases_depth(cs: Seq<PluralCaseView>) -> nat
    decreases cs,
{
    if cs.len() == 0 {
        0
    } else {
        let hd = elements_depth(cs[0].message);
        let tl = plural_cases_depth(cs.subrange(1, cs.len() as int));
        if hd > tl {
            hd
        } else {
            tl
        }
    }
}

pub open spec fn select_cases_depth(cs: Seq<SelectCaseView>) -> nat
    decreases cs,
{
    if cs.len() == 0 {
        0
    } else {
        let hd = elements_depth(cs[0].message);
        let tl = select_cases_depth(cs.subrange(1, cs.len() as int));
        if hd > tl {
            hd
        } else {
            tl
        }
    }
}

proof fn lemma_elements_depth(es: Seq<ElementView>, i: int)
    requires
        0 <= i < es.len(),
    ensures
        element_depth(es[i]) <= elements_depth(es),
    decreases es.len(),
{
    if i > 0 {
        let tail = es.subrange(1, es.len() as int);
        lemma_elements_depth(tail, i - 1);
        assert(tail[i - 1] == es[i]);
    }
}

proof fn lemma_plural_cases_depth(cs: Seq<PluralCaseView>, i: int)
    requires
        0 <= i < cs.len(),
    ensures
        elements_depth(cs[i].message) <= plural_cases_depth(cs),
    decreases cs.len(),
{
    if i > 0 {
        let tail = cs.subrange(1, cs.len() as int);
        lemma_plural_cases_depth(tail, i - 1);
        assert(tail[i - 1] == cs[i]);
    }
}

proof fn lemma_select_cases_depth(cs: Seq<SelectCaseView>, i: int)
    requires
        0 <= i < cs.len(),
    ensures
        elements_depth(cs[i].message) <= select_cases_depth(cs),
    decreases cs.len(),
{
    if i > 0 {
        let tail = cs.subrange(1, cs.len() as int);
        lemma_select_cases_depth(tail, i - 1);
        assert(tail[i - 1] == cs[i]);
    }
}

// ---------------------------------------------------------------------------
// executable case selection
// ---------------------------------------------------------------------------

fn selector_eq(a: &PluralSelector, b: &PluralSelector) -> (r: bool)
    ensures
        r == (selector_view(*a) == selector_view(*b)),
{
    match (a, b) {
        (PluralSelector::Zero, PluralSelector::Zero) => true,
        (PluralSelector::One, PluralSelector::One) => true,
        (PluralSelector::Two, PluralSelector::Two) => true,
        (PluralSelector::Few, PluralSelector::Few) => true,
        (PluralSelector::Many, PluralSelector::Many) => true,
        (PluralSelector::Other, PluralSelector::Other) => true,
        (PluralSelector::Exact(x), PluralSelector::Exact(y)) => *x == *y,
        _ => false,
    }
}

fn find_exact(cases: &Vec<PluralCase>, count: i64) -> (r: Option<usize>)
    ensures
        ({
            let cv = plural_cases_view(cases@);
            match r {
                Some(i) => first_exact_index(cv, count as int) == Some(i as int) && 0 <= i
                    < cv.len(),
                None => first_exact_index(cv, count as int) is None,
            }
        }),
{
    let ghost cv = plural_cases_view(cases@);
    proof {
        lemma_plural_cases_view(cases@);
        assert(cv.subrange(0, cv.len() as int) =~= cv);
    }
    let n = cases.len();
    let mut k: usize = 0;
    while k < n
        invariant
            n == cases@.len(),
            0 <= k <= n,
            cv == plural_cases_view(cases@),
            cv.len() == n,
            forall|i: int| 0 <= i < n ==> cv[i] == plural_case_view(cases@[i]),
            first_exact_index(cv, count as int) == shift_index(
                first_exact_index(cv.subrange(k as int, n as int), count as int),
                k as int,
            ),
        decreases n - k,
    {
        let case = &cases[k];
        let hit = match &case.selector {
            PluralSelector::Exact(x) => *x == count,
            _ => false,
        };
        proof {
            let suf = cv.subrange(k as int, n as int);
            assert(suf[0] == cv[k as int]);
            assert(suf.subrange(1, suf.len() as int) =~= cv.subrange(k + 1, n as int));
        }
        if hit {
            return Some(k);
        }
        k = k + 1;
    }
    proof {
        assert(cv.subrange(n as int, n as int).len() == 0);
    }
    None
}

fn find_selector(cases: &Vec<PluralCase>, sel: &PluralSelector) -> (r: Option<usize>)
    ensures
        ({
            let cv = plural_cases_view(cases@);
            match r {
                Some(i) => first_selector_index(cv, selector_view(*sel)) == Some(i as int) && 0 <= i
                    < cv.len(),
                None => first_selector_index(cv, selector_view(*sel)) is None,
            }
        }),
{
    let ghost cv = plural_cases_view(cases@);
    proof {
        lemma_plural_cases_view(cases@);
        assert(cv.subrange(0, cv.len() as int) =~= cv);
    }
    let n = cases.len();
    let mut k: usize = 0;
    while k < n
        invariant
            n == cases@.len(),
            0 <= k <= n,
            cv == plural_cases_view(cases@),
            cv.len() == n,
            forall|i: int| 0 <= i < n ==> cv[i] == plural_case_view(cases@[i]),
            first_selector_index(cv, selector_view(*sel)) == shift_index(
                first_selector_index(cv.subrange(k as int, n as int), selector_view(*sel)),
                k as int,
            ),
        decreases n - k,
    {
        let case = &cases[k];
        let hit = selector_eq(&case.selector, sel);
        proof {
            let suf = cv.subrange(k as int, n as int);
            assert(suf[0] == cv[k as int]);
            assert(suf.subrange(1, suf.len() as int) =~= cv.subrange(k + 1, n as int));
        }
        if hit {
            return Some(k);
        }
        k = k + 1;
    }
    proof {
        assert(cv.subrange(n as int, n as int).len() == 0);
    }
    None
}

fn find_string(cases: &Vec<SelectCase>, value: &str) -> (r: Option<usize>)
    ensures
        ({
            let cv = select_cases_view(cases@);
            match r {
                Some(i) => first_string_index(cv, value@) == Some(i as int) && 0 <= i < cv.len(),
                None => first_string_index(cv, value@) is None,
            }
        }),
{
    let ghost cv = select_cases_view(cases@);
    proof {
        lemma_select_cases_view(cases@);
        assert(cv.subrange(0, cv.len() as int) =~= cv);
    }
    let n = cases.len();
    let mut k: usize = 0;
    while k < n
        invariant
            n == cases@.len(),
            0 <= k <= n,
            cv == select_cases_view(cases@),
            cv.len() == n,
            forall|i: int| 0 <= i < n ==> cv[i] == select_case_view(cases@[i]),
            first_string_index(cv, value@) == shift_index(
                first_string_index(cv.subrange(k as int, n as int), value@),
                k as int,
            ),
        decreases n - k,
    {
        let case = &cases[k];
        let hit = str_eq(case.selector.as_str(), value);
        proof {
            let suf = cv.subrange(k as int, n as int);
            assert(suf[0] == cv[k as int]);
            assert(suf.subrange(1, suf.len() as int) =~= cv.subrange(k + 1, n as int));
        }
        if hit {
            return Some(k);
        }
        k = k + 1;
    }
    proof {
        assert(cv.subrange(n as int, n as int).len() == 0);
    }
    None
}

/// Picks the plural case for `count`: an `Exact(count)` case first, then the
/// rule-derived category, then the first `other` case.
pub fn select_plural_case<'a>(plural_expr: &'a PluralExpression, count: i64) -> (r: Option<
    &'a Message,
>)
    ensures
        ({
            let cv = plural_cases_view(plural_expr.cases@);
            match r {
                Some(m) => plural_choice(cv, count as int) is Some && 0 <= plural_choice(
                    cv,
                    count as int,
                )->0 < cv.len() && m@ == cv[plural_choice(cv, count as int)->0].message,
                None => plural_choice(cv, count as int) is None,
            }
        }),
{
    proof {
        lemma_plural_cases_view(plural_expr.cases@);
    }
    let idx: Option<usize> = match find_exact(&plural_expr.cases, count) {
        Some(i) => Some(i),
        None => {
            let rule = if count == 0 {
                PluralSelector::Zero
            } else if count == 1 {
                PluralSelector::One
            } else if count == 2 {
                PluralSelector::Two
            } else {
                PluralSelector::Other
            };
            proof {
                assert(selector_view(rule) == plural_category(count as int));
            }
            match find_selector(&plural_expr.cases, &rule) {
                Some(i) => Some(i),
                None => find_selector(&plural_expr.cases, &PluralSelector::Other),
            }
        },
    };
    match idx {
        Some(i) => Some(&plural_expr.cases[i].message),
        None => None,
    }
}

/// Picks the select case for `value`: an exact, case-sensitive match first,
/// then the first case whose selector is `other`.
pub fn select_case<'a>(select_expr: &'a SelectExpression, value: &str) -> (r: Option<&'a Message>)
    ensures
        ({
            let cv = select_cases_view(select_expr.cases@);
            match r {
                Some(m) => select_choice(cv, value@) is Some && 0 <= select_choice(cv, value@)->0
                    < cv.len() && m@ == cv[select_choice(cv, value@)->0].message,
                None => select_choice(cv, value@) is None,
            }
        }),
{
    proof {
        lemma_select_cases_view(select_expr.cases@);
    }
    let idx: Option<usize> = match find_string(&select_expr.cases, value) {
        Some(i) => Some(i),
        None => find_string(&select_expr.cases, "other"),
    };
    match idx {
        Some(i) => Some(&select_expr.cases[i].message),
        None => None,
    }
}

// ---------------------------------------------------------------------------
// the formatter
// ---------------------------------------------------------------------------

proof fn lemma_append_combine(prefix: Seq<char>, s1: Seq<char>, rest: EvalOutcome)
    ensures
        append_outcome(prefix, combine_outcome(EvalOutcome::Rendered(s1), rest)) == append_outcome(
            prefix + s1,
            rest,
        ),
{
    match rest {
        EvalOutcome::Rendered(s2) => {
            assert(prefix + (s1 + s2) =~= (prefix + s1) + s2);
        },
        _ => {},
    }
}

/// Formats a message under a binding set and a locale tag. The result is
/// exactly what the spec-level evaluator describes: the elements' renderings
/// in order, or the first failure in document order, with nothing emitted.
pub fn format_message<'a>(message: &Message, parameters: Parameters<'a>, locale: &str) -> (r:
    Result<String, FormatError>)
    ensures
        ({
            let o = eval_elements(message@, parameters@, locale@);
            match r {
                Ok(s) => o == EvalOutcome::Rendered(s@),
                Err(FormatError::MissingParameter(p)) => o == EvalOutcome::MissingParameter(p@),
                Err(FormatError::InvalidParameterType(p)) => o == EvalOutcome::InvalidParameterType(
                    p@,
                ),
            }
        }),
    decreases elements_depth(message@),
{
    let n = message.elements.len();
    proof {
        lemma_elements_view(message.elements@);
        assert(message@.subrange(0, n as int) =~= message@);
    }
    let mut out = String::new();
    let mut j: usize = 0;
    while j < n
        invariant
            n == message.elements@.len(),
            0 <= j <= n,
            message@.len() == n,
            message@ == crate::types::elements_view(message.elements@),
            forall|i: int| 0 <= i < n ==> message@[i] == element_view(message.elements@[i]),
            eval_elements(message@, parameters@, locale@) == append_outcome(
                out@,
                eval_elements(message@.subrange(j as int, n as int), parameters@, locale@),
            ),
        decreases n - j,
    {
        let ghost suf = message@.subrange(j as int, n as int);
        let ghost suf_next = message@.subrange(j + 1, n as int);
        let ghost ev = element_view(message.elements@[j as int]);
        let ghost out_old = out@;
        proof {
            assert(suf[0] == message@[j as int]);
            assert(suf.subrange(1, suf.len() as int) =~= suf_next);
            assert(eval_elements(suf, parameters@, locale@) == combine_outcome(
                eval_element(ev, parameters@, locale@),
                eval_elements(suf_next, parameters@, locale@),
            ));
        }
        let elem = &message.elements[j];
        match elem {
            MessageElement::Text(text) => {
                out.append(text.as_str());
                proof {
                    lemma_append_combine(
                        out_old,
                        text@,
                        eval_elements(suf_next, parameters@, locale@),
                    );
                }
            },
            MessageElement::Parameter(param_name) => {
                match parameters.get(param_name.as_str()) {
                    None => {
                        return Err(FormatError::MissingParameter(param_name.clone()));
                    },
                    Some(pv) => match *pv {
                        ParameterValue::String(v) => {
                            out.append(v);
                            proof {
                                lemma_append_combine(
                                    out_old,
                                    v@,
                                    eval_elements(suf_next, parameters@, locale@),
                                );
                            }
                        },
                        ParameterValue::Number(nv) => {
                            let t = i64_to_string(nv);
                            out.append(t.as_str());
                            proof {
                                lemma_append_combine(
                                    out_old,
                                    t@,
                                    eval_elements(suf_next, parameters@, locale@),
                                );
                            }
                        },
                    },
                }
            },
            MessageElement::Plural(plural_expr) => {
                let count_opt: Option<i64> = match parameters.get(plural_expr.parameter.as_str()) {
                    None => {
                        return Err(FormatError::MissingParameter(plural_expr.parameter.clone()));
                    },
                    Some(pv) => match *pv {
                        ParameterValue::Number(nv) => Some(nv),
                        ParameterValue::String(sv) => parse_i64(sv),
                    },
                };
                let count = match count_opt {
                    Some(c) => c,
                    None => {
                        return Err(
                            FormatError::InvalidParameterType(plural_expr.parameter.clone()),
                        );
                    },
                };
                match select_plural_case(plural_expr, count) {
                    None => {
                        proof {
                            lemma_append_combine(
                                out_old,
                                Seq::empty(),
                                eval_elements(suf_next, parameters@, locale@),
                            );
                            assert(out@ + Seq::<char>::empty() =~= out@);
                        }
                    },
                    Some(selected_message) => {
                        proof {
                            let pv_view = ev->Plural_0;
                            let i = plural_choice(pv_view.cases, count as int)->0;
                            lemma_plural_cases_depth(pv_view.cases, i);
                            lemma_elements_depth(message@, j as int);
                        }
                        let formatted = match format_message(selected_message, parameters, locale) {
                            Ok(s) => s,
                            Err(e) => {
                                return Err(e);
                            },
                        };
                        let substituted = substitute_hash_placeholder(formatted.as_str(), count);
                        out.append(substituted.as_str());
                        proof {
                            lemma_append_combine(
                                out_old,
                                substituted@,
                                eval_elements(suf_next, parameters@, locale@),
                            );
                        }
                    },
                }
            },
            MessageElement::Select(select_expr) => {
                let value: &str = match parameters.get(select_expr.parameter.as_str()) {
                    None => {
                        return Err(FormatError::MissingParameter(select_expr.parameter.clone()));
                    },
                    Some(pv) => match *pv {
                        ParameterValue::String(sv) => sv,
                        ParameterValue::Number(_) => {
                            return Err(
                                FormatError::InvalidParameterType(select_expr.parameter.clone()),
                            );
                        },
                    },
                };
                match select_case(select_expr, value) {
                    None => {
                        proof {
                            lemma_append_combine(
                                out_old,
                                Seq::empty(),
                                eval_elements(suf_next, parameters@, locale@),
                            );
                            assert(out@ + Seq::<char>::empty() =~= out@);
                        }
                    },
                    Some(selected_message) => {
                        proof {
                            let sv_view = ev->Select_0;
                            let i = select_choice(sv_view.cases, value@)->0;
                            lemma_select_cases_depth(sv_view.cases, i);
                            lemma_elements_depth(message@, j as int);
                        }
                        let formatted = match format_message(selected_message, parameters, locale) {
                            Ok(s) => s,
                            Err(e) => {
                                return Err(e);
                            },
                        };
                        out.append(formatted.as_str());
                        proof {
                            lemma_append_combine(
                                out_old,
                                formatted@,
                                eval_elements(suf_next, parameters@, locale@),
                            );
                        }
                    },
                }
            },
            MessageElement::Number(number_expr) => {
                let dec_opt: Option<DecimalValue> = match parameters.get(
                    number_expr.parameter.as_str(),
                ) {
                    None => {
                        return Err(FormatError::MissingParameter(number_expr.parameter.clone()));
                    },
                    Some(pv) => match *pv {
                        ParameterValue::Number(nv) => Some(decimal_from_i64(nv)),
                        ParameterValue::String(sv) => parse_decimal(sv),
                    },
                };
                let dec = match dec_opt {
                    Some(d) => d,
                    None => {
                        return Err(
                            FormatError::InvalidParameterType(number_expr.parameter.clone()),
                        );
                    },
                };
                match format_number(&dec, &number_expr.format_type, locale) {
                    Some(t) => {
                        out.append(t.as_str());
                        proof {
                            lemma_append_combine(
                                out_old,
                                t@,
                                eval_elements(suf_next, parameters@, locale@),
                            );
                        }
                    },
                    None => {
                        return Err(
                            FormatError::InvalidParameterType(number_expr.parameter.clone()),
                        );
                    },
                }
            },
        }
        j = j + 1;
    }
    proof {
        assert(message@.subrange(n as int, n as int).len() == 0);
        assert(out@ + Seq::<char>::empty() =~= out@);
    }
    Ok(out)
}

} // verus!
