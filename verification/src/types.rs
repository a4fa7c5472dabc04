//! The data model: parsed template messages, their spec-level views, and
//! parameter binding sets.

use vstd::prelude::*;
use crate::text::parse_i64_spec;
use crate::text::parse_i64;
use crate::text::str_eq;

verus! {

// ---------------------------------------------------------------------------
// spec-level views of the parsed message tree
// ---------------------------------------------------------------------------

/// Mathematical model of one message element.
pub enum ElementView {
    Text(Seq<char>),
    Parameter(Seq<char>),
    Plural(PluralView),
    Select(SelectView),
    Number(NumberView),
}

pub struct PluralView {
    pub parameter: Seq<char>,
    pub cases: Seq<PluralCaseView>,
}

pub struct PluralCaseView {
    pub selector: SelectorView,
    pub message: Seq<ElementView>,
}

pub enum SelectorView {
    Zero,
    One,
    Two,
    Few,
    Many,
    Other,
    Exact(int),
}

pub struct SelectView {
    pub parameter: Seq<char>,
    pub cases: Seq<SelectCaseView>,
}

pub struct SelectCaseView {
    pub selector: Seq<char>,
    pub message: Seq<ElementView>,
}

pub struct NumberView {
    pub parameter: Seq<char>,
    pub format_type: NumberFormatView,
}

pub enum NumberFormatView {
    Number,
    Integer,
    Percent,
    Currency(Seq<char>),
}

/// Mathematical model of one bound runtime value.
pub enum ValueView {
    Str(Seq<char>),
    Int(int),
}

// ---------------------------------------------------------------------------
// the executable message tree
// ---------------------------------------------------------------------------

#[derive(Debug, PartialEq)]
pub enum MessageElement {
    Text(String),
    Parameter(String),
    Plural(PluralExpression),
    Select(SelectExpression),
    Number(NumberExpression),
}

#[derive(Debug, PartialEq)]
pub struct PluralExpression {
    pub parameter: String,
    pub cases: Vec<PluralCase>,
}

#[derive(Debug, PartialEq)]
pub struct PluralCase {
    pub selector: PluralSelector,
    pub message: Message,
}

#[derive(Debug, PartialEq)]
pub struct SelectExpression {
    pub parameter: String,
    pub cases: Vec<SelectCase>,
}

#[derive(Debug, PartialEq)]
pub struct SelectCase {
    pub selector: String,
    pub message: Message,
}

#[derive(Debug, Clone, PartialEq)]
pub struct NumberExpression {
    pub parameter: String,
    pub format_type: NumberFormatType,
}

#[derive(Debug, Clone, PartialEq)]
pub enum NumberFormatType {
    Number,
    Integer,
    Percent,
    Currency(String),
}

#[derive(Debug, Clone, PartialEq)]
pub enum PluralSelector {
    Zero,
    One,
    Two,
    Few,
    Many,
    Other,
    Exact(i64),
}

#[derive(Debug, PartialEq)]
pub struct Message {
    pub elements: Vec<MessageElement>,
}

// ---------------------------------------------------------------------------
// view functions
// ---------------------------------------------------------------------------

pub open spec fn selector_view(sel: PluralSelector) -> SelectorView {
    match sel {
        PluralSelector::Zero => SelectorView::Zero,
        PluralSelector::One => SelectorView::One,
        PluralSelector::Two => SelectorView::Two,
        PluralSelector::Few => SelectorView::Few,
        PluralSelector::Many => SelectorView::Many,
        PluralSelector::Other => SelectorView::Other,
        PluralSelector::Exact(n) => SelectorView::Exact(n as int),
    }
}

pub open spec fn format_type_view(t: NumberFormatType) -> NumberFormatView {
    match t {
        NumberFormatType::Number => NumberFormatView::Number,
        NumberFormatType::Integer => NumberFormatView::Integer,
        NumberFormatType::Percent => NumberFormatView::Percent,
        NumberFormatType::Currency(code) => NumberFormatView::Currency(code@),
    }
}

pub open spec fn element_view(e: MessageElement) -> ElementView
    decreases e,
{
    match e {
        MessageElement::Text(s) => ElementView::Text(s@),
        MessageElement::Parameter(s) => ElementView::Parameter(s@),
        MessageElement::Plural(pe) => ElementView::Plural(
            PluralView { parameter: pe.parameter@, cases: plural_cases_view(pe.cases@) },
        ),
        MessageElement::Select(se) => ElementView::Select(
            SelectView { parameter: se.parameter@, cases: select_cases_view(se.cases@) },
        ),
        MessageElement::Number(ne) => ElementView::Number(
            NumberView { parameter: ne.parameter@, format_type: format_type_view(ne.format_type) },
        ),
    }
}

pub open spec fn elements_view(es: Seq<MessageElement>) -> Seq<ElementView>
    decreases es,
{
    if es.len() == 0 {
        Seq::empty()
    } else {
        seq![element_view(es[0])] + elements_view(es.subrange(1, es.len() as int))
    }
}

pub open spec fn plural_case_view(c: PluralCase) -> PluralCaseView
    decreases c,
{
    PluralCaseView {
        selector: selector_view(c.selector),
        message: elements_view(c.message.elements@),
    }
}

pub open spec fn plural_cases_view(cs: Seq<PluralCase>) -> Seq<PluralCaseView>
    decreases cs,
{
    if cs.len() == 0 {
        Seq::empty()
    } else {
        seq![plural_case_view(cs[0])] + plural_cases_view(cs.subrange(1, cs.len() as int))
    }
}

pub open spec fn select_case_view(c: SelectCase) -> SelectCaseView
    decreases c,
{
    SelectCaseView { selector: c.selector@, message: elements_view(c.message.elements@) }
}

pub open spec fn select_cases_view(cs: Seq<SelectCase>) -> Seq<SelectCaseView>
    decreases cs,
{
    if cs.len() == 0 {
        Seq::empty()
    } else {
        seq![select_case_view(cs[0])] + select_cases_view(cs.subrange(1, cs.len() as int))
    }
}

impl View for MessageElement {
    type V = ElementView;

    open spec fn view(&self) -> ElementView {
        element_view(*self)
    }
}

impl View for Message {
    type V = Seq<ElementView>;

    open spec fn view(&self) -> Seq<ElementView> {
        elements_view(self.elements@)
    }
}

// ---------------------------------------------------------------------------
// lemmas about the sequence views
// ---------------------------------------------------------------------------

pub proof fn lemma_elements_view(es: Seq<MessageElement>)
    ensures
        elements_view(es).len() == es.len(),
        forall|i: int| 0 <= i < es.len() ==> elements_view(es)[i] == element_view(es[i]),
    decreases es.len(),
{
    if es.len() > 0 {
        let tail = es.subrange(1, es.len() as int);
        lemma_elements_view(tail);
        assert forall|i: int| 0 <= i < es.len() implies elements_view(es)[i] == element_view(
            es[i],
        ) by {
            if i > 0 {
                assert(elements_view(es)[i] == elements_view(tail)[i - 1]);
                assert(tail[i - 1] == es[i]);
            }
        }
    }
}

pub proof fn lemma_plural_cases_view(cs: Seq<PluralCase>)
    ensures
        plural_cases_view(cs).len() == cs.len(),
        forall|i: int| 0 <= i < cs.len() ==> plural_cases_view(cs)[i] == plural_case_view(cs[i]),
    decreases cs.len(),
{
    if cs.len() > 0 {
        let tail = cs.subrange(1, cs.len() as int);
        lemma_plural_cases_view(tail);
        assert forall|i: int| 0 <= i < cs.len() implies plural_cases_view(cs)[i]
            == plural_case_view(cs[i]) by {
            if i > 0 {
                assert(plural_cases_view(cs)[i] == plural_cases_view(tail)[i - 1]);
                assert(tail[i - 1] == cs[i]);
            }
        }
    }
}

pub proof fn lemma_select_cases_view(cs: Seq<SelectCase>)
    ensures
        select_cases_view(cs).len() == cs.len(),
        forall|i: int| 0 <= i < cs.len() ==> select_cases_view(cs)[i] == select_case_view(cs[i]),
    decreases cs.len(),
{
    if cs.len() > 0 {
        let tail = cs.subrange(1, cs.len() as int);
        lemma_select_cases_view(tail);
        assert forall|i: int| 0 <= i < cs.len() implies select_cases_view(cs)[i]
            == select_case_view(cs[i]) by {
            if i > 0 {
                assert(select_cases_view(cs)[i] == select_cases_view(tail)[i - 1]);
                assert(tail[i - 1] == cs[i]);
            }
        }
    }
}

// ---------------------------------------------------------------------------
// constructors and methods
// ---------------------------------------------------------------------------

/// Meaning of a plural-case selector token: one of the six category keywords,
/// or a base-10 integer giving an exact match.
pub open spec fn selector_parse_spec(s: Seq<char>) -> Option<SelectorView> {
    if s == "zero"@ {
        Some(SelectorView::Zero)
    } else if s == "one"@ {
        Some(SelectorView::One)
    } else if s == "two"@ {
        Some(SelectorView::Two)
    } else if s == "few"@ {
        Some(SelectorView::Few)
    } else if s == "many"@ {
        Some(SelectorView::Many)
    } else if s == "other"@ {
        Some(SelectorView::Other)
    } else {
        match parse_i64_spec(s) {
            Some(n) => Some(SelectorView::Exact(n)),
            None => None,
        }
    }
}

impl PluralSelector {
    /// Reads a selector token; unknown tokens that are not integers give
    /// `None`.
    pub fn parse(s: &str) -> (r: Option<Self>)
        ensures
            match r {
                Some(sel) => selector_parse_spec(s@) == Some(selector_view(sel)),
                None => selector_parse_spec(s@) is None,
            },
    {
        if str_eq(s, "zero") {
            Some(PluralSelector::Zero)
        } else if str_eq(s, "one") {
            Some(PluralSelector::One)
        } else if str_eq(s, "two") {
            Some(PluralSelector::Two)
        } else if str_eq(s, "few") {
            Some(PluralSelector::Few)
        } else if str_eq(s, "many") {
            Some(PluralSelector::Many)
        } else if str_eq(s, "other") {
            Some(PluralSelector::Other)
        } else {
            match parse_i64(s) {
                Some(n) => Some(PluralSelector::Exact(n)),
                None => None,
            }
        }
    }
}

impl Message {
    pub fn new(elements: Vec<MessageElement>) -> (r: Self)
        ensures
            r.elements == elements,
            r@ == elements_view(elements@),
    {
        Self { elements }
    }
}

// ---------------------------------------------------------------------------
// parameter binding sets
// ---------------------------------------------------------------------------

#[derive(Debug, Clone, Copy, PartialEq)]
pub enum ParameterValue<'a> {
    String(&'a str),
    Number(i64),
}

impl<'a> View for ParameterValue<'a> {
    type V = ValueView;

    open spec fn view(&self) -> ValueView {
        match *self {
            ParameterValue::String(s) => ValueView::Str(s@),
            ParameterValue::Number(n) => ValueView::Int(n as int),
        }
    }
}

/// Types that can stand as a parameter value without giving up ownership.
pub trait AsParameterValue {
    /// The bound value this borrows as, as a mathematical value.
    spec fn value_view(&self) -> ValueView;

    fn as_parameter_value<'a>(&'a self) -> (r: ParameterValue<'a>)
        ensures
            r@ == self.value_view(),
    ;
}

impl AsParameterValue for &str {
    open spec fn value_view(&self) -> ValueView {
        ValueView::Str((*self)@)
    }

    fn as_parameter_value<'a>(&'a self) -> (r: ParameterValue<'a>) {
        ParameterValue::String(*self)
    }
}

impl AsParameterValue for i64 {
    open spec fn value_view(&self) -> ValueView {
        ValueView::Int(*self as int)
    }

    fn as_parameter_value<'a>(&'a self) -> (r: ParameterValue<'a>) {
        ParameterValue::Number(*self)
    }
}

impl AsParameterValue for i32 {
    open spec fn value_view(&self) -> ValueView {
        ValueView::Int(*self as int)
    }

    fn as_parameter_value<'a>(&'a self) -> (r: ParameterValue<'a>) {
        ParameterValue::Number(*self as i64)
    }
}

impl AsParameterValue for String {
    open spec fn value_view(&self) -> ValueView {
        ValueView::Str(self@)
    }

    fn as_parameter_value<'a>(&'a self) -> (r: ParameterValue<'a>) {
        ParameterValue::String(self.as_str())
    }
}

/// An immutable set of named runtime values handed to the formatter.
/// Names are pairwise distinct.
#[derive(Debug, Clone, Copy, PartialEq)]
pub struct Parameters<'a> {
    pairs: &'a [(&'a str, ParameterValue<'a>)],
}

impl<'a> View for Parameters<'a> {
    type V = Seq<(Seq<char>, ValueView)>;

    closed spec fn view(&self) -> Seq<(Seq<char>, ValueView)> {
        Seq::new(self.pairs@.len(), |i: int| (self.pairs@[i].0@, self.pairs@[i].1@))
    }
}

/// The value bound to `name`: the first pair with that name, if any.
pub open spec fn lookup(ps: Seq<(Seq<char>, ValueView)>, name: Seq<char>) -> Option<ValueView>
    decreases ps.len(),
{
    if ps.len() == 0 {
        None
    } else if ps[0].0 == name {
        Some(ps[0].1)
    } else {
        lookup(ps.subrange(1, ps.len() as int), name)
    }
}

impl<'a> Parameters<'a> {
    /// A binding set with no pairs.
    pub fn empty() -> (r: Self)
        ensures
            r@ == Seq::<(Seq<char>, ValueView)>::empty(),
    {
        let r = Self { pairs: &[] };
        proof {
            assert(r@ =~= Seq::<(Seq<char>, ValueView)>::empty());
        }
        r
    }

    /// Wraps a slice of name/value pairs. Constructing a set with a duplicate
    /// name is a caller error, ruled out up front rather than reported back.
    pub fn from_slice(pairs: &'a [(&'a str, ParameterValue<'a>)]) -> (r: Self)
        requires
            forall|i: int, j: int|
                0 <= i < j < pairs@.len() ==> pairs@[i].0@ != pairs@[j].0@,
        ensures
            r@ == Seq::new(pairs@.len(), |i: int| (pairs@[i].0@, pairs@[i].1@)),
    {
        Self { pairs }
    }

    /// Finds the value bound to `key`.
    pub fn get(&self, key: &str) -> (r: Option<&ParameterValue<'a>>)
        ensures
            match r {
                Some(v) => lookup(self@, key@) == Some(v@),
                None => lookup(self@, key@) is None,
            },
    {
        let n = self.pairs.len();
        let mut i: usize = 0;
        proof {
            assert(self@.subrange(0, n as int) =~= self@);
        }
        while i < n
            invariant
                n == self.pairs@.len(),
                0 <= i <= n,
                lookup(self@, key@) == lookup(self@.subrange(i as int, n as int), key@),
            decreases n - i,
        {
            let pair = vstd::slice::slice_index_get(self.pairs, i);
            if str_eq(pair.0, key) {
                proof {
                    let suf = self@.subrange(i as int, n as int);
                    assert(suf[0] == self@[i as int]);
                    assert(self@[i as int].0 == self.pairs@[i as int].0@);
                }
                return Some(&pair.1);
            }
            proof {
                let suf = self@.subrange(i as int, n as int);
                assert(suf[0] == self@[i as int]);
                assert(suf.subrange(1, suf.len() as int) =~= self@.subrange(
                    i + 1,
                    n as int,
                ));
            }
            i = i + 1;
        }
        proof {
            assert(self@.subrange(n as int, n as int).len() == 0);
        }
        None
    }
}

} // verus!
