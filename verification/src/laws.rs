//! Laws of the library, stated over the spec-level models and proved once
//! and for all: parsing of plain text, purity of formatting, the plural and
//! select tie-break ladders, hash substitution, and the missing-parameter
//! rule.

use vstd::prelude::*;
use crate::formatter::EvalOutcome;
use crate::formatter::count_of_value;
use crate::formatter::eval_element;
use crate::formatter::eval_elements;
use crate::formatter::first_exact_index;
use crate::formatter::first_selector_index;
use crate::formatter::first_string_index;
use crate::formatter::plural_category;
use crate::formatter::plural_choice;
use crate::formatter::replace_hash;
use crate::formatter::select_choice;
use crate::parser::parse_message_spec;
use crate::parser::sp_element;
use crate::parser::sp_elements;
use crate::parser::sp_text;
use crate::parser::text_end;
use crate::text::dec_digits;
use crate::text::dec_str;
use crate::text::digit_char;
use crate::types::ElementView;
use crate::types::PluralCaseView;
use crate::types::PluralView;
use crate::types::SelectCaseView;
use crate::types::SelectorView;
use crate::types::ValueView;
use crate::types::lookup;

verus! {

// ---------------------------------------------------------------------------
// plain text
// ---------------------------------------------------------------------------

proof fn lemma_text_end_runs(s: Seq<char>, k: int)
    requires
        0 <= k <= s.len(),
        forall|i: int| 0 <= i < s.len() ==> s[i] != '{',
    ensures
        text_end(s, k) == s.len(),
    decreases s.len() - k,
{
    if k < s.len() {
        lemma_text_end_runs(s, k + 1);
    }
}

/// A template without a `{` is one literal text run: it parses to a single
/// text element holding the whole input, and formatting renders the input
/// unchanged under any bindings and any locale.
pub proof fn lemma_plain_text_identity(
    s: Seq<char>,
    ps: Seq<(Seq<char>, ValueView)>,
    locale: Seq<char>,
)
    requires
        s.len() > 0,
        forall|i: int| 0 <= i < s.len() ==> s[i] != '{',
    ensures
        parse_message_spec(s) == Some(seq![ElementView::Text(s)]),
        eval_elements(seq![ElementView::Text(s)], ps, locale) == EvalOutcome::Rendered(s),
{
    lemma_text_end_runs(s, 0);
    assert(s.subrange(0, s.len() as int) =~= s);
    assert(sp_text(s, 0) == Some((s.len() as int, ElementView::Text(s))));
    assert(sp_element(s, 0) == Some((s.len() as int, ElementView::Text(s))));
    assert(sp_element(s, s.len() as int) is None);
    assert(sp_elements(s, s.len() as int) == (s.len() as int, Seq::<ElementView>::empty()));
    let es = seq![ElementView::Text(s)];
    assert(sp_elements(s, 0).1 =~= es);
    assert(es[0] == ElementView::Text(s));
    assert(eval_element(es[0], ps, locale) == EvalOutcome::Rendered(s));
    assert(es.subrange(1, 1) =~= Seq::<ElementView>::empty());
    assert(eval_elements(es.subrange(1, 1), ps, locale) == EvalOutcome::Rendered(
        Seq::<char>::empty(),
    ));
    assert(s + Seq::<char>::empty() =~= s);
}

// ---------------------------------------------------------------------------
// purity
// ---------------------------------------------------------------------------

/// Formatting is a pure function: identical message, bindings and locale
/// give the identical outcome — the same rendered text or the same failure.
pub proof fn lemma_format_pure(
    es1: Seq<ElementView>,
    es2: Seq<ElementView>,
    ps1: Seq<(Seq<char>, ValueView)>,
    ps2: Seq<(Seq<char>, ValueView)>,
    l1: Seq<char>,
    l2: Seq<char>,
)
    requires
        es1 == es2,
        ps1 == ps2,
        l1 == l2,
    ensures
        eval_elements(es1, ps1, l1) == eval_elements(es2, ps2, l2),
{
}

// ---------------------------------------------------------------------------
// the plural tie-break ladder
// ---------------------------------------------------------------------------

proof fn lemma_first_exact_found(cases: Seq<PluralCaseView>, count: int, w: int)
    requires
        0 <= w < cases.len(),
        cases[w].selector == SelectorView::Exact(count),
    ensures
        first_exact_index(cases, count) is Some,
        0 <= first_exact_index(cases, count)->0 < cases.len(),
        cases[first_exact_index(cases, count)->0].selector == SelectorView::Exact(count),
    decreases cases.len(),
{
    if cases[0].selector != SelectorView::Exact(count) {
        let tail = cases.subrange(1, cases.len() as int);
        assert(tail[w - 1] == cases[w]);
        lemma_first_exact_found(tail, count, w - 1);
        let i = first_exact_index(tail, count)->0;
        assert(cases[i + 1] == tail[i]);
    }
}

proof fn lemma_first_exact_none(cases: Seq<PluralCaseView>, count: int)
    requires
        forall|i: int|
            0 <= i < cases.len() ==> (#[trigger] cases[i].selector) != SelectorView::Exact(count),
    ensures
        first_exact_index(cases, count) is None,
    decreases cases.len(),
{
    if cases.len() > 0 {
        let tail = cases.subrange(1, cases.len() as int);
        assert forall|i: int|
            0 <= i < tail.len() implies (#[trigger] tail[i].selector) != SelectorView::Exact(
            count,
        ) by {
            assert(tail[i] == cases[i + 1]);
        }
        lemma_first_exact_none(tail, count);
    }
}

proof fn lemma_first_selector_found(cases: Seq<PluralCaseView>, sel: SelectorView, w: int)
    requires
        0 <= w < cases.len(),
        cases[w].selector == sel,
    ensures
        first_selector_index(cases, sel) is Some,
        0 <= first_selector_index(cases, sel)->0 < cases.len(),
        cases[first_selector_index(cases, sel)->0].selector == sel,
    decreases cases.len(),
{
    if cases[0].selector != sel {
        let tail = cases.subrange(1, cases.len() as int);
        assert(tail[w - 1] == cases[w]);
        lemma_first_selector_found(tail, sel, w - 1);
        let i = first_selector_index(tail, sel)->0;
        assert(cases[i + 1] == tail[i]);
    }
}

proof fn lemma_first_selector_none(cases: Seq<PluralCaseView>, sel: SelectorView)
    requires
        forall|i: int| 0 <= i < cases.len() ==> (#[trigger] cases[i].selector) != sel,
    ensures
        first_selector_index(cases, sel) is None,
    decreases cases.len(),
{
    if cases.len() > 0 {
        let tail = cases.subrange(1, cases.len() as int);
        assert forall|i: int| 0 <= i < tail.len() implies (#[trigger] tail[i].selector) != sel by {
            assert(tail[i] == cases[i + 1]);
        }
        lemma_first_selector_none(tail, sel);
    }
}

/// An exact selector wins: when some case selects `Exact(count)`, the
/// chosen case is an `Exact(count)` case, whatever named categories — `many`,
/// `other` or any other — are also present.
pub proof fn lemma_exact_precedence(cases: Seq<PluralCaseView>, count: int, w: int)
    requires
        0 <= w < cases.len(),
        cases[w].selector == SelectorView::Exact(count),
    ensures
        plural_choice(cases, count) is Some,
        0 <= plural_choice(cases, count)->0 < cases.len(),
        cases[plural_choice(cases, count)->0].selector == SelectorView::Exact(count),
{
    lemma_first_exact_found(cases, count, w);
}

/// With cases for `one` and `other` only: a count of 1 falls in a `one`
/// case, and every other count falls in an `other` case.
pub proof fn lemma_one_other_fallback(cases: Seq<PluralCaseView>, count: int, w1: int, w2: int)
    requires
        forall|i: int|
            0 <= i < cases.len() ==> ((#[trigger] cases[i].selector) == SelectorView::One
                || cases[i].selector == SelectorView::Other),
        0 <= w1 < cases.len(),
        cases[w1].selector == SelectorView::One,
        0 <= w2 < cases.len(),
        cases[w2].selector == SelectorView::Other,
    ensures
        plural_choice(cases, count) is Some,
        0 <= plural_choice(cases, count)->0 < cases.len(),
        count == 1 ==> cases[plural_choice(cases, count)->0].selector == SelectorView::One,
        count != 1 ==> cases[plural_choice(cases, count)->0].selector == SelectorView::Other,
{
    lemma_first_exact_none(cases, count);
    if count == 1 {
        lemma_first_selector_found(cases, SelectorView::One, w1);
    } else if count == 0 {
        lemma_first_selector_none(cases, SelectorView::Zero);
        lemma_first_selector_found(cases, SelectorView::Other, w2);
    } else if count == 2 {
        lemma_first_selector_none(cases, SelectorView::Two);
        lemma_first_selector_found(cases, SelectorView::Other, w2);
    } else {
        lemma_first_selector_found(cases, SelectorView::Other, w2);
    }
}

/// A plural construct whose cases match neither exactly, nor by category,
/// nor through an `other` fallback renders as empty text — the formatting
/// call itself still succeeds.
pub proof fn lemma_plural_no_match_empty(
    pv: PluralView,
    ps: Seq<(Seq<char>, ValueView)>,
    locale: Seq<char>,
    v: ValueView,
    count: int,
)
    requires
        lookup(ps, pv.parameter) == Some(v),
        count_of_value(v) == Some(count),
        forall|i: int|
            0 <= i < pv.cases.len() ==> (#[trigger] pv.cases[i].selector) != SelectorView::Exact(
                count,
            ) && pv.cases[i].selector != plural_category(count) && pv.cases[i].selector
                != SelectorView::Other,
    ensures
        eval_element(ElementView::Plural(pv), ps, locale) == EvalOutcome::Rendered(
            Seq::<char>::empty(),
        ),
{
    lemma_first_exact_none(pv.cases, count);
    lemma_first_selector_none(pv.cases, plural_category(count));
    lemma_first_selector_none(pv.cases, SelectorView::Other);
}

// ---------------------------------------------------------------------------
// the select fallback
// ---------------------------------------------------------------------------

proof fn lemma_first_string_found(cases: Seq<SelectCaseView>, value: Seq<char>, w: int)
    requires
        0 <= w < cases.len(),
        cases[w].selector == value,
    ensures
        first_string_index(cases, value) is Some,
        0 <= first_string_index(cases, value)->0 < cases.len(),
        cases[first_string_index(cases, value)->0].selector == value,
    decreases cases.len(),
{
    if cases[0].selector != value {
        let tail = cases.subrange(1, cases.len() as int);
        assert(tail[w - 1] == cases[w]);
        lemma_first_string_found(tail, value, w - 1);
        let i = first_string_index(tail, value)->0;
        assert(cases[i + 1] == tail[i]);
    }
}

proof fn lemma_first_string_none(cases: Seq<SelectCaseView>, value: Seq<char>)
    requires
        forall|i: int| 0 <= i < cases.len() ==> (#[trigger] cases[i].selector) != value,
    ensures
        first_string_index(cases, value) is None,
    decreases cases.len(),
{
    if cases.len() > 0 {
        let tail = cases.subrange(1, cases.len() as int);
        assert forall|i: int| 0 <= i < tail.len() implies (#[trigger] tail[i].selector)
            != value by {
            assert(tail[i] == cases[i + 1]);
        }
        lemma_first_string_none(tail, value);
    }
}

/// When the bound string equals no selector, the first case whose selector
/// is the literal string `other` is chosen.
pub proof fn lemma_select_fallback(cases: Seq<SelectCaseView>, value: Seq<char>, w: int)
    requires
        forall|i: int| 0 <= i < cases.len() ==> (#[trigger] cases[i].selector) != value,
        0 <= w < cases.len(),
        cases[w].selector == "other"@,
    ensures
        select_choice(cases, value) is Some,
        0 <= select_choice(cases, value)->0 < cases.len(),
        cases[select_choice(cases, value)->0].selector == "other"@,
{
    lemma_first_string_none(cases, value);
    lemma_first_string_found(cases, "other"@, w);
}

// ---------------------------------------------------------------------------
// hash substitution
// ---------------------------------------------------------------------------

/// Hash substitution runs after the chosen case has been fully rendered:
/// when that rendering succeeds with text `sub`, the plural element emits
/// `replace_hash(sub, count)` — the substitution sees the complete rendered
/// text, nested constructs included.
pub proof fn lemma_hash_after_rendering(
    pv: PluralView,
    ps: Seq<(Seq<char>, ValueView)>,
    locale: Seq<char>,
    v: ValueView,
    count: int,
    i: int,
    sub: Seq<char>,
)
    requires
        lookup(ps, pv.parameter) == Some(v),
        count_of_value(v) == Some(count),
        plural_choice(pv.cases, count) == Some(i),
        0 <= i < pv.cases.len(),
        eval_elements(pv.cases[i].message, ps, locale) == EvalOutcome::Rendered(sub),
    ensures
        eval_element(ElementView::Plural(pv), ps, locale) == EvalOutcome::Rendered(
            replace_hash(sub, dec_str(count)),
        ),
{
}

proof fn lemma_dec_digits_no_hash(n: nat)
    ensures
        forall|j: int| 0 <= j < dec_digits(n).len() ==> dec_digits(n)[j] != '#',
    decreases n,
{
    if n >= 10 {
        lemma_dec_digits_no_hash(n / 10);
        let pre = dec_digits(n / 10);
        assert forall|j: int| 0 <= j < dec_digits(n).len() implies dec_digits(n)[j] != '#' by {
            if j < pre.len() {
                assert(dec_digits(n)[j] == pre[j]);
            } else {
                assert(dec_digits(n)[j] == digit_char((n % 10) as int));
            }
        }
    } else {
        assert(dec_digits(n) == seq![digit_char(n as int)]);
        assert(dec_digits(n)[0] == digit_char(n as int));
    }
}

proof fn lemma_dec_str_no_hash(n: int)
    ensures
        forall|j: int| 0 <= j < dec_str(n).len() ==> dec_str(n)[j] != '#',
{
    if n < 0 {
        lemma_dec_digits_no_hash((-n) as nat);
        assert forall|j: int| 0 <= j < dec_str(n).len() implies dec_str(n)[j] != '#' by {
            if j > 0 {
                assert(dec_str(n)[j] == dec_digits((-n) as nat)[j - 1]);
            }
        }
    } else {
        lemma_dec_digits_no_hash(n as nat);
    }
}

proof fn lemma_replace_hash_no_hash(s: Seq<char>, rep: Seq<char>)
    requires
        forall|j: int| 0 <= j < rep.len() ==> rep[j] != '#',
    ensures
        forall|j: int| 0 <= j < replace_hash(s, rep).len() ==> replace_hash(s, rep)[j] != '#',
    decreases s.len(),
{
    if s.len() > 0 {
        let tail = s.subrange(1, s.len() as int);
        lemma_replace_hash_no_hash(tail, rep);
        let head: Seq<char> = if s[0] == '#' {
            rep
        } else {
            seq![s[0]]
        };
        assert forall|j: int| 0 <= j < replace_hash(s, rep).len() implies replace_hash(s, rep)[j]
            != '#' by {
            if j < head.len() {
                assert(replace_hash(s, rep)[j] == head[j]);
            } else {
                assert(replace_hash(s, rep)[j] == replace_hash(tail, rep)[j - head.len()]);
            }
        }
    }
}

/// Hash substitution is complete: after replacing, no `#` remains anywhere
/// in the text, wherever the `#` came from.
pub proof fn lemma_hash_substitution_total(s: Seq<char>, count: int)
    ensures
        forall|j: int|
            0 <= j < replace_hash(s, dec_str(count)).len() ==> replace_hash(s, dec_str(count))[j]
                != '#',
{
    lemma_dec_str_no_hash(count);
    lemma_replace_hash_no_hash(s, dec_str(count));
}

// ---------------------------------------------------------------------------
// missing parameters
// ---------------------------------------------------------------------------

/// A reference to an unbound name fails with `MissingParameter` carrying
/// that name, whichever construct — bare parameter, plural, select or
/// number — makes the reference.
pub proof fn lemma_missing_parameter(
    e: ElementView,
    ps: Seq<(Seq<char>, ValueView)>,
    locale: Seq<char>,
    name: Seq<char>,
)
    requires
        lookup(ps, name) is None,
        match e {
            ElementView::Parameter(p) => p == name,
            ElementView::Plural(pv) => pv.parameter == name,
            ElementView::Select(sv) => sv.parameter == name,
            ElementView::Number(nv) => nv.parameter == name,
            ElementView::Text(_) => false,
        },
    ensures
        eval_element(e, ps, locale) == EvalOutcome::MissingParameter(name),
{
}

} // verus!
