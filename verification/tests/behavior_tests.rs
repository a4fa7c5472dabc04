//! Behavior at the edges: the tie-break ladders, hash substitution over
//! rendered output, error variants, decimal normalization, and selector
//! parsing.

use msgfmt::parse_message;
use msgfmt::select_plural_case;
use msgfmt::substitute_hash_placeholder;
use msgfmt::FormatError;
use msgfmt::MessageFormatError;
use msgfmt::ParameterValue;
use msgfmt::Parameters;
use msgfmt::PluralSelector;

#[test]
fn plain_text_round_trips_unchanged() {
    let result = msgfmt::format("no braces at all, just text.", Parameters::empty());
    assert_eq!(result.unwrap(), "no braces at all, just text.");
}

#[test]
fn exact_selector_beats_category_and_other() {
    let result = msgfmt::format(
        "{count, plural, 5{exactly five} many{lots} other{# items}}",
        Parameters::from_slice(&[("count", ParameterValue::Number(5))]),
    );
    assert_eq!(result.unwrap(), "exactly five");
}

#[test]
fn plural_without_match_renders_empty() {
    let result = msgfmt::format(
        "[{count, plural, one{1 item}}]",
        Parameters::from_slice(&[("count", ParameterValue::Number(5))]),
    );
    assert_eq!(result.unwrap(), "[]");
}

#[test]
fn plural_two_category() {
    let result = msgfmt::format(
        "{count, plural, two{a pair} other{# items}}",
        Parameters::from_slice(&[("count", ParameterValue::Number(2))]),
    );
    assert_eq!(result.unwrap(), "a pair");
}

#[test]
fn plural_count_from_string_binding() {
    let result = msgfmt::format(
        "{count, plural, one{1 item} other{# items}}",
        Parameters::from_slice(&[("count", ParameterValue::String("7"))]),
    );
    assert_eq!(result.unwrap(), "7 items");
}

#[test]
fn plural_negative_count() {
    let result = msgfmt::format(
        "{n, plural, other{# below zero}}",
        Parameters::from_slice(&[("n", ParameterValue::Number(-3))]),
    );
    assert_eq!(result.unwrap(), "-3 below zero");
}

#[test]
fn hash_replaces_text_from_nested_constructs_too() {
    let result = msgfmt::format(
        "{count, plural, other{a # and {name} #}}",
        Parameters::from_slice(&[
            ("count", ParameterValue::Number(7)),
            ("name", ParameterValue::String("A#B")),
        ]),
    );
    assert_eq!(result.unwrap(), "a 7 and A7B 7");
}

#[test]
fn hash_substitution_direct() {
    assert_eq!(substitute_hash_placeholder("a#b#", 3), "a3b3");
    assert_eq!(substitute_hash_placeholder("no hash", 3), "no hash");
}

#[test]
fn missing_parameter_in_plural() {
    let result = msgfmt::format("{count, plural, other{x}}", Parameters::empty());
    let err = result.unwrap_err();
    assert!(matches!(
        err,
        MessageFormatError::FormatError(FormatError::MissingParameter(p)) if p == "count"
    ));
}

#[test]
fn missing_parameter_in_number() {
    let result = msgfmt::format("{price, number}", Parameters::empty());
    let err = result.unwrap_err();
    assert!(matches!(
        err,
        MessageFormatError::FormatError(FormatError::MissingParameter(p)) if p == "price"
    ));
}

#[test]
fn invalid_count_string_in_plural() {
    let result = msgfmt::format(
        "{count, plural, other{x}}",
        Parameters::from_slice(&[("count", ParameterValue::String("abc"))]),
    );
    let err = result.unwrap_err();
    assert!(matches!(
        err,
        MessageFormatError::FormatError(FormatError::InvalidParameterType(p)) if p == "count"
    ));
}

#[test]
fn plural_count_overflowing_i64_is_invalid() {
    let result = msgfmt::format(
        "{count, plural, other{x}}",
        Parameters::from_slice(&[("count", ParameterValue::String("9223372036854775808"))]),
    );
    let err = result.unwrap_err();
    assert!(matches!(
        err,
        MessageFormatError::FormatError(FormatError::InvalidParameterType(p)) if p == "count"
    ));
}

#[test]
fn number_bound_to_select_is_invalid() {
    let result = msgfmt::format(
        "{g, select, male{x} other{y}}",
        Parameters::from_slice(&[("g", ParameterValue::Number(5))]),
    );
    let err = result.unwrap_err();
    assert!(matches!(
        err,
        MessageFormatError::FormatError(FormatError::InvalidParameterType(p)) if p == "g"
    ));
}

#[test]
fn select_without_match_renders_empty() {
    let result = msgfmt::format(
        "[{g, select, male{x} female{y}}]",
        Parameters::from_slice(&[("g", ParameterValue::String("none"))]),
    );
    assert_eq!(result.unwrap(), "[]");
}

#[test]
fn unparsable_number_string_is_invalid() {
    let result = msgfmt::format(
        "{price, number}",
        Parameters::from_slice(&[("price", ParameterValue::String("12.34.56"))]),
    );
    let err = result.unwrap_err();
    assert!(matches!(
        err,
        MessageFormatError::FormatError(FormatError::InvalidParameterType(p)) if p == "price"
    ));
}

#[test]
fn malformed_currency_code_is_invalid() {
    let result = msgfmt::format(
        "{price, number, currency/EURO}",
        Parameters::from_slice(&[("price", ParameterValue::Number(25))]),
    );
    let err = result.unwrap_err();
    assert!(matches!(
        err,
        MessageFormatError::FormatError(FormatError::InvalidParameterType(p)) if p == "price"
    ));
}

#[test]
fn currency_code_is_case_insensitive() {
    let result = msgfmt::format(
        "{price, number, currency/eur}",
        Parameters::from_slice(&[("price", ParameterValue::Number(25))]),
    );
    assert_eq!(result.unwrap(), "€25");
}

#[test]
fn unterminated_construct_is_a_parse_error() {
    let result = msgfmt::format("Hello {name", Parameters::empty());
    assert!(matches!(result.unwrap_err(), MessageFormatError::ParseError(_)));
}

#[test]
fn unknown_keyword_is_a_parse_error() {
    let result = msgfmt::format(
        "{count, cardinal, one{x}}",
        Parameters::from_slice(&[("count", ParameterValue::Number(1))]),
    );
    assert!(matches!(result.unwrap_err(), MessageFormatError::ParseError(_)));
}

#[test]
fn plural_without_cases_is_a_parse_error() {
    let result = parse_message("{count, plural, }");
    assert!(result.is_err());
}

#[test]
fn whitespace_inside_constructs_is_accepted() {
    let result = msgfmt::format(
        "{ name } and { count , plural , one{one} other{# things} }",
        Parameters::from_slice(&[
            ("name", ParameterValue::String("x")),
            ("count", ParameterValue::Number(4)),
        ]),
    );
    assert_eq!(result.unwrap(), "x and 4 things");
}

#[test]
fn number_grouping_under_en_locale() {
    let result = msgfmt::format(
        "{n, number}",
        Parameters::from_slice(&[("n", ParameterValue::Number(1234567))]),
    );
    assert_eq!(result.unwrap(), "1,234,567");
}

#[test]
fn number_normalizes_trailing_zeros() {
    let result = msgfmt::format(
        "{n, number}",
        Parameters::from_slice(&[("n", ParameterValue::String("001.100"))]),
    );
    assert_eq!(result.unwrap(), "1.1");
}

#[test]
fn negative_zero_renders_as_zero() {
    let result = msgfmt::format(
        "{n, number}",
        Parameters::from_slice(&[("n", ParameterValue::String("-0.0"))]),
    );
    assert_eq!(result.unwrap(), "0");
}

#[test]
fn integer_format_truncates_toward_zero() {
    let result = msgfmt::format(
        "{n, number, integer}",
        Parameters::from_slice(&[("n", ParameterValue::String("-19.99"))]),
    );
    assert_eq!(result.unwrap(), "-19");
}

#[test]
fn percent_of_small_fraction_truncates_to_zero() {
    let result = msgfmt::format(
        "{r, number, percent}",
        Parameters::from_slice(&[("r", ParameterValue::String("0.001"))]),
    );
    assert_eq!(result.unwrap(), "0%");
}

#[test]
fn percent_of_negative_value() {
    let result = msgfmt::format(
        "{r, number, percent}",
        Parameters::from_slice(&[("r", ParameterValue::String("-0.5"))]),
    );
    assert_eq!(result.unwrap(), "-50%");
}

#[test]
fn percent_of_integer_binding() {
    let result = msgfmt::format(
        "{r, number, percent}",
        Parameters::from_slice(&[("r", ParameterValue::Number(2))]),
    );
    assert_eq!(result.unwrap(), "200%");
}

#[test]
fn selector_parse_accepts_keywords_and_integers() {
    assert_eq!(PluralSelector::parse("zero"), Some(PluralSelector::Zero));
    assert_eq!(PluralSelector::parse("one"), Some(PluralSelector::One));
    assert_eq!(PluralSelector::parse("two"), Some(PluralSelector::Two));
    assert_eq!(PluralSelector::parse("few"), Some(PluralSelector::Few));
    assert_eq!(PluralSelector::parse("many"), Some(PluralSelector::Many));
    assert_eq!(PluralSelector::parse("other"), Some(PluralSelector::Other));
    assert_eq!(PluralSelector::parse("12"), Some(PluralSelector::Exact(12)));
    assert_eq!(PluralSelector::parse("-5"), Some(PluralSelector::Exact(-5)));
    assert_eq!(PluralSelector::parse("eleventy"), None);
    assert_eq!(PluralSelector::parse(""), None);
}

#[test]
fn select_plural_case_prefers_exact_match() {
    let message = parse_message("{count, plural, one{category} 1{exact}}").unwrap();
    if let msgfmt::MessageElement::Plural(expr) = &message.elements[0] {
        let chosen = select_plural_case(expr, 1).unwrap();
        assert_eq!(
            chosen.elements[0],
            msgfmt::MessageElement::Text("exact".to_string())
        );
    } else {
        panic!("Expected plural expression");
    }
}
