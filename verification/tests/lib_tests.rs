use msgfmt::AsParameterValue;
use msgfmt::ParameterValue;
use msgfmt::Parameters;

#[test]
fn test_basic_interpolation() {
    let result = msgfmt::format(
        "Hello {name}!",
        Parameters::from_slice(&[("name", ParameterValue::String("World"))]),
    );
    assert!(result.is_ok());
    assert_eq!(result.unwrap(), "Hello World!");
}

#[test]
fn test_multiple_parameters() {
    let result = msgfmt::format(
        "{greeting} {name}{punctuation}",
        Parameters::from_slice(&[
            ("greeting", ParameterValue::String("Hello")),
            ("name", ParameterValue::String("Alice")),
            ("punctuation", ParameterValue::String("!")),
        ]),
    );
    assert!(result.is_ok());
    assert_eq!(result.unwrap(), "Hello Alice!");
}

#[test]
fn test_no_parameters() {
    let result = msgfmt::format("Hello world!", Parameters::empty());
    assert!(result.is_ok());
    assert_eq!(result.unwrap(), "Hello world!");
}

#[test]
fn test_missing_parameter_error() {
    let result = msgfmt::format("Hello {name}!", Parameters::empty());
    assert!(result.is_err());
}

#[test]
fn test_tolgee_example_basic() {
    let result = msgfmt::format(
        "You have {itemCount} items in your cart.",
        Parameters::from_slice(&[("itemCount", ParameterValue::String("5"))]),
    );
    assert!(result.is_ok());
    assert_eq!(result.unwrap(), "You have 5 items in your cart.");
}

#[test]
fn test_icu_example_basic() {
    let result = msgfmt::format(
        "Hello {name}!",
        Parameters::from_slice(&[("name", ParameterValue::String("John"))]),
    );
    assert!(result.is_ok());
    assert_eq!(result.unwrap(), "Hello John!");
}

#[test]
fn test_plural_one_item() {
    let result = msgfmt::format(
        "You have {count, plural, one{1 item} other{# items}} in your cart.",
        Parameters::from_slice(&[("count", ParameterValue::Number(1))]),
    );
    assert!(result.is_ok());
    assert_eq!(result.unwrap(), "You have 1 item in your cart.");
}

#[test]
fn test_plural_multiple_items() {
    let result = msgfmt::format(
        "You have {count, plural, one{1 item} other{# items}} in your cart.",
        Parameters::from_slice(&[("count", ParameterValue::Number(5))]),
    );
    assert!(result.is_ok());
    assert_eq!(result.unwrap(), "You have 5 items in your cart.");
}

#[test]
fn test_plural_zero_items() {
    let result = msgfmt::format(
        "{count, plural, zero{No items} one{1 item} other{# items}}",
        Parameters::from_slice(&[("count", ParameterValue::Number(0))]),
    );
    assert!(result.is_ok());
    assert_eq!(result.unwrap(), "No items");
}

#[test]
fn test_tolgee_plural_example() {
    let result = msgfmt::format(
        "You have {itemCount, plural, one{# item} other{# items}} in your cart.",
        Parameters::from_slice(&[("itemCount", ParameterValue::Number(3))]),
    );
    assert!(result.is_ok());
    assert_eq!(result.unwrap(), "You have 3 items in your cart.");
}

#[test]
fn test_icu_plural_example() {
    let result = msgfmt::format(
        "{n, plural, one{# day} other{# days}}",
        Parameters::from_slice(&[("n", ParameterValue::Number(1))]),
    );
    assert!(result.is_ok());
    assert_eq!(result.unwrap(), "1 day");
}

#[test]
fn test_select_gender_male() {
    let result = msgfmt::format(
        "{gender, select, male{He likes this.} female{She likes this.} other{They like this.}}",
        Parameters::from_slice(&[("gender", ParameterValue::String("male"))]),
    );
    assert!(result.is_ok());
    assert_eq!(result.unwrap(), "He likes this.");
}

#[test]
fn test_select_gender_female() {
    let result = msgfmt::format(
        "{gender, select, male{He likes this.} female{She likes this.} other{They like this.}}",
        Parameters::from_slice(&[("gender", ParameterValue::String("female"))]),
    );
    assert!(result.is_ok());
    assert_eq!(result.unwrap(), "She likes this.");
}

#[test]
fn test_select_gender_fallback() {
    let result = msgfmt::format(
        "{gender, select, male{He likes this.} female{She likes this.} other{They like this.}}",
        Parameters::from_slice(&[("gender", ParameterValue::String("nonbinary"))]),
    );
    assert!(result.is_ok());
    assert_eq!(result.unwrap(), "They like this.");
}

#[test]
fn test_format_with_owned_strings() {
    let name = "Bob".to_string();
    let greeting = String::from("Hi");

    let result = msgfmt::format(
        "{greeting}, {name}!",
        Parameters::from_slice(&[
            ("greeting", AsParameterValue::as_parameter_value(&greeting)),
            ("name", AsParameterValue::as_parameter_value(&name)),
        ]),
    );

    assert!(result.is_ok());
    assert_eq!(result.unwrap(), "Hi, Bob!");
}

#[test]
fn test_number_basic() {
    let result = msgfmt::format(
        "{count, number}",
        Parameters::from_slice(&[("count", ParameterValue::Number(42))]),
    );
    assert!(result.is_ok());
    assert_eq!(result.unwrap(), "42");
}

#[test]
fn test_number_integer() {
    let result = msgfmt::format(
        "{count, number, integer}",
        Parameters::from_slice(&[("count", ParameterValue::String("19.99"))]),
    );
    assert!(result.is_ok());
    assert_eq!(result.unwrap(), "19");
}

#[test]
fn test_number_percent() {
    let result = msgfmt::format(
        "{ratio, number, percent}",
        Parameters::from_slice(&[("ratio", ParameterValue::String("0.75"))]),
    );
    assert!(result.is_ok());
    assert_eq!(result.unwrap(), "75%");
}

#[test]
fn test_number_currency_usd() {
    let result = msgfmt::format(
        "{price, number, currency}",
        Parameters::from_slice(&[("price", ParameterValue::String("19.99"))]),
    );
    assert!(result.is_ok());
    assert_eq!(result.unwrap(), "$19.99");
}

#[test]
fn test_number_currency_eur() {
    let result = msgfmt::format(
        "{price, number, currency/EUR}",
        Parameters::from_slice(&[("price", ParameterValue::Number(25))]),
    );
    assert!(result.is_ok());
    assert_eq!(result.unwrap(), "€25");
}
