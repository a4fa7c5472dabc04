use msgfmt::format_message;
use msgfmt::FormatError;
use msgfmt::Message;
use msgfmt::MessageElement;
use msgfmt::NumberExpression;
use msgfmt::NumberFormatType;
use msgfmt::ParameterValue;
use msgfmt::Parameters;
use msgfmt::PluralCase;
use msgfmt::PluralExpression;
use msgfmt::PluralSelector;
use msgfmt::SelectCase;
use msgfmt::SelectExpression;

#[test]
fn test_format_text_only() {
    let message = Message::new(vec![MessageElement::Text("Hello world".to_string())]);
    let params = Parameters::empty();

    let result = format_message(&message, params, "en");
    assert!(result.is_ok());
    assert_eq!(result.unwrap(), "Hello world");
}

#[test]
fn test_format_single_parameter() {
    let message = Message::new(vec![
        MessageElement::Text("Hello ".to_string()),
        MessageElement::Parameter("name".to_string()),
    ]);

    let result = format_message(
        &message,
        Parameters::from_slice(&[("name", ParameterValue::String("Alice"))]),
        "en",
    );
    assert!(result.is_ok());
    assert_eq!(result.unwrap(), "Hello Alice");
}

#[test]
fn test_format_multiple_parameters() {
    let message = Message::new(vec![
        MessageElement::Text("Hello ".to_string()),
        MessageElement::Parameter("firstName".to_string()),
        MessageElement::Text(" ".to_string()),
        MessageElement::Parameter("lastName".to_string()),
        MessageElement::Text("!".to_string()),
    ]);
    let result = format_message(
        &message,
        Parameters::from_slice(&[
            ("firstName", ParameterValue::String("Alice")),
            ("lastName", ParameterValue::String("Johnson")),
        ]),
        "en",
    );
    assert!(result.is_ok());
    assert_eq!(result.unwrap(), "Hello Alice Johnson!");
}

#[test]
fn test_format_missing_parameter() {
    let message = Message::new(vec![
        MessageElement::Text("Hello ".to_string()),
        MessageElement::Parameter("name".to_string()),
    ]);
    let params = Parameters::empty();

    let result = format_message(&message, params, "en");
    assert!(result.is_err());
    assert_eq!(
        result.unwrap_err(),
        FormatError::MissingParameter("name".to_string())
    );
}

#[test]
fn test_format_plural_one() {
    let plural_expr = PluralExpression {
        parameter: "count".to_string(),
        cases: vec![
            PluralCase {
                selector: PluralSelector::One,
                message: Message::new(vec![MessageElement::Text("1 item".to_string())]),
            },
            PluralCase {
                selector: PluralSelector::Other,
                message: Message::new(vec![MessageElement::Text("# items".to_string())]),
            },
        ],
    };
    let message = Message::new(vec![MessageElement::Plural(plural_expr)]);
    let result = format_message(
        &message,
        Parameters::from_slice(&[("count", ParameterValue::Number(1))]),
        "en",
    );
    assert!(result.is_ok());
    assert_eq!(result.unwrap(), "1 item");
}

#[test]
fn test_format_plural_other() {
    let plural_expr = PluralExpression {
        parameter: "count".to_string(),
        cases: vec![
            PluralCase {
                selector: PluralSelector::One,
                message: Message::new(vec![MessageElement::Text("1 item".to_string())]),
            },
            PluralCase {
                selector: PluralSelector::Other,
                message: Message::new(vec![MessageElement::Text("# items".to_string())]),
            },
        ],
    };
    let message = Message::new(vec![MessageElement::Plural(plural_expr)]);
    let result = format_message(
        &message,
        Parameters::from_slice(&[("count", ParameterValue::Number(5))]),
        "en",
    );
    assert!(result.is_ok());
    assert_eq!(result.unwrap(), "5 items");
}

#[test]
fn test_format_plural_with_context() {
    let plural_expr = PluralExpression {
        parameter: "count".to_string(),
        cases: vec![
            PluralCase {
                selector: PluralSelector::One,
                message: Message::new(vec![MessageElement::Text("1 item".to_string())]),
            },
            PluralCase {
                selector: PluralSelector::Other,
                message: Message::new(vec![MessageElement::Text("# items".to_string())]),
            },
        ],
    };
    let message = Message::new(vec![
        MessageElement::Text("You have ".to_string()),
        MessageElement::Plural(plural_expr),
        MessageElement::Text(" in your cart.".to_string()),
    ]);
    let result = format_message(
        &message,
        Parameters::from_slice(&[("count", ParameterValue::Number(3))]),
        "en",
    );
    assert!(result.is_ok());
    assert_eq!(result.unwrap(), "You have 3 items in your cart.");
}

#[test]
fn test_format_select_male() {
    let select_expr = SelectExpression {
        parameter: "gender".to_string(),
        cases: vec![
            SelectCase {
                selector: "male".to_string(),
                message: Message::new(vec![MessageElement::Text("He likes this.".to_string())]),
            },
            SelectCase {
                selector: "female".to_string(),
                message: Message::new(vec![MessageElement::Text("She likes this.".to_string())]),
            },
            SelectCase {
                selector: "other".to_string(),
                message: Message::new(vec![MessageElement::Text("They like this.".to_string())]),
            },
        ],
    };
    let message = Message::new(vec![MessageElement::Select(select_expr)]);

    let result = format_message(
        &message,
        Parameters::from_slice(&[("gender", ParameterValue::String("male"))]),
        "en",
    );
    assert!(result.is_ok());
    assert_eq!(result.unwrap(), "He likes this.");
}

#[test]
fn test_format_select_female() {
    let select_expr = SelectExpression {
        parameter: "gender".to_string(),
        cases: vec![
            SelectCase {
                selector: "male".to_string(),
                message: Message::new(vec![MessageElement::Text("He likes this.".to_string())]),
            },
            SelectCase {
                selector: "female".to_string(),
                message: Message::new(vec![MessageElement::Text("She likes this.".to_string())]),
            },
            SelectCase {
                selector: "other".to_string(),
                message: Message::new(vec![MessageElement::Text("They like this.".to_string())]),
            },
        ],
    };
    let message = Message::new(vec![MessageElement::Select(select_expr)]);

    let result = format_message(
        &message,
        Parameters::from_slice(&[("gender", ParameterValue::String("female"))]),
        "en",
    );
    assert!(result.is_ok());
    assert_eq!(result.unwrap(), "She likes this.");
}

#[test]
fn test_format_select_fallback_to_other() {
    let select_expr = SelectExpression {
        parameter: "gender".to_string(),
        cases: vec![
            SelectCase {
                selector: "male".to_string(),
                message: Message::new(vec![MessageElement::Text("He likes this.".to_string())]),
            },
            SelectCase {
                selector: "female".to_string(),
                message: Message::new(vec![MessageElement::Text("She likes this.".to_string())]),
            },
            SelectCase {
                selector: "other".to_string(),
                message: Message::new(vec![MessageElement::Text("They like this.".to_string())]),
            },
        ],
    };
    let message = Message::new(vec![MessageElement::Select(select_expr)]);

    let result = format_message(
        &message,
        Parameters::from_slice(&[("gender", ParameterValue::String("nonbinary"))]),
        "en",
    );
    assert!(result.is_ok());
    assert_eq!(result.unwrap(), "They like this.");
}

#[test]
fn test_format_number_basic() {
    let number_expr = NumberExpression {
        parameter: "count".to_string(),
        format_type: NumberFormatType::Number,
    };
    let message = Message::new(vec![MessageElement::Number(number_expr)]);

    let result = format_message(
        &message,
        Parameters::from_slice(&[("count", ParameterValue::Number(42))]),
        "en",
    );
    assert!(result.is_ok());
    assert_eq!(result.unwrap(), "42");
}

#[test]
fn test_format_number_decimal() {
    let number_expr = NumberExpression {
        parameter: "price".to_string(),
        format_type: NumberFormatType::Number,
    };
    let message = Message::new(vec![MessageElement::Number(number_expr)]);

    let result = format_message(
        &message,
        Parameters::from_slice(&[("price", ParameterValue::String("19.99"))]),
        "en",
    );
    assert!(result.is_ok());
    assert_eq!(result.unwrap(), "19.99");
}

#[test]
fn test_format_number_integer() {
    let number_expr = NumberExpression {
        parameter: "count".to_string(),
        format_type: NumberFormatType::Integer,
    };
    let message = Message::new(vec![MessageElement::Number(number_expr)]);

    let result = format_message(
        &message,
        Parameters::from_slice(&[("count", ParameterValue::String("19.99"))]),
        "en",
    );
    assert!(result.is_ok());
    assert_eq!(result.unwrap(), "19");
}

#[test]
fn test_format_number_percent() {
    let number_expr = NumberExpression {
        parameter: "ratio".to_string(),
        format_type: NumberFormatType::Percent,
    };
    let message = Message::new(vec![MessageElement::Number(number_expr)]);

    let result = format_message(
        &message,
        Parameters::from_slice(&[("ratio", ParameterValue::String("0.75"))]),
        "en",
    );
    assert!(result.is_ok());
    assert_eq!(result.unwrap(), "75%");
}

#[test]
fn test_format_number_currency_usd() {
    let number_expr = NumberExpression {
        parameter: "price".to_string(),
        format_type: NumberFormatType::Currency("USD".to_string()),
    };
    let message = Message::new(vec![MessageElement::Number(number_expr)]);

    let result = format_message(
        &message,
        Parameters::from_slice(&[("price", ParameterValue::String("19.99"))]),
        "en",
    );
    assert!(result.is_ok());
    assert_eq!(result.unwrap(), "$19.99");
}

#[test]
fn test_format_number_currency_eur() {
    let number_expr = NumberExpression {
        parameter: "price".to_string(),
        format_type: NumberFormatType::Currency("EUR".to_string()),
    };
    let message = Message::new(vec![MessageElement::Number(number_expr)]);

    let result = format_message(
        &message,
        Parameters::from_slice(&[("price", ParameterValue::Number(25))]),
        "en",
    );
    assert!(result.is_ok());
    assert_eq!(result.unwrap(), "€25");
}

#[test]
fn test_format_number_currency_any_valid_code() {
    let number_expr = NumberExpression {
        parameter: "price".to_string(),
        format_type: NumberFormatType::Currency("SEK".to_string()),
    };
    let message = Message::new(vec![MessageElement::Number(number_expr)]);

    let result = format_message(
        &message,
        Parameters::from_slice(&[("price", ParameterValue::Number(100))]),
        "en",
    );
    assert!(result.is_ok());
    let formatted = result.unwrap();
    assert!(formatted.contains("100") || formatted.contains("SEK"));
}
