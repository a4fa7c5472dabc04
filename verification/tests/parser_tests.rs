use msgfmt::parse_message;
use msgfmt::MessageElement;
use msgfmt::NumberFormatType;
use msgfmt::PluralSelector;

#[test]
fn test_parse_simple_text() {
    let result = parse_message("Hello world");
    assert!(result.is_ok());
    let message = result.unwrap();
    assert_eq!(message.elements.len(), 1);
    assert_eq!(message.elements[0], MessageElement::Text("Hello world".to_string()));
}

#[test]
fn test_parse_simple_parameter() {
    let result = parse_message("{name}");
    assert!(result.is_ok());
    let message = result.unwrap();
    assert_eq!(message.elements.len(), 1);
    assert_eq!(message.elements[0], MessageElement::Parameter("name".to_string()));
}

#[test]
fn test_parse_mixed_content() {
    let result = parse_message("Hello {name}!");
    assert!(result.is_ok());
    let message = result.unwrap();
    assert_eq!(message.elements.len(), 3);
    assert_eq!(message.elements[0], MessageElement::Text("Hello ".to_string()));
    assert_eq!(message.elements[1], MessageElement::Parameter("name".to_string()));
    assert_eq!(message.elements[2], MessageElement::Text("!".to_string()));
}

#[test]
fn test_parse_multiple_parameters() {
    let result = parse_message("Hello {firstName} {lastName}!");
    assert!(result.is_ok());
    let message = result.unwrap();
    assert_eq!(message.elements.len(), 5);
    assert_eq!(message.elements[0], MessageElement::Text("Hello ".to_string()));
    assert_eq!(message.elements[1], MessageElement::Parameter("firstName".to_string()));
    assert_eq!(message.elements[2], MessageElement::Text(" ".to_string()));
    assert_eq!(message.elements[3], MessageElement::Parameter("lastName".to_string()));
    assert_eq!(message.elements[4], MessageElement::Text("!".to_string()));
}

#[test]
fn test_parse_simple_plural() {
    let result = parse_message("{count, plural, one{1 item} other{# items}}");
    assert!(result.is_ok());
    let message = result.unwrap();
    assert_eq!(message.elements.len(), 1);

    if let MessageElement::Plural(plural_expr) = &message.elements[0] {
        assert_eq!(plural_expr.parameter, "count");
        assert_eq!(plural_expr.cases.len(), 2);

        assert_eq!(plural_expr.cases[0].selector, PluralSelector::One);
        assert_eq!(plural_expr.cases[0].message.elements.len(), 1);
        assert_eq!(
            plural_expr.cases[0].message.elements[0],
            MessageElement::Text("1 item".to_string())
        );

        assert_eq!(plural_expr.cases[1].selector, PluralSelector::Other);
        assert_eq!(plural_expr.cases[1].message.elements.len(), 1);
        assert_eq!(
            plural_expr.cases[1].message.elements[0],
            MessageElement::Text("# items".to_string())
        );
    } else {
        panic!("Expected plural expression");
    }
}

#[test]
fn test_parse_plural_with_text() {
    let result = parse_message("You have {count, plural, one{1 item} other{# items}} in your cart.");
    assert!(result.is_ok());
    let message = result.unwrap();
    assert_eq!(message.elements.len(), 3);

    assert_eq!(message.elements[0], MessageElement::Text("You have ".to_string()));
    assert!(matches!(message.elements[1], MessageElement::Plural(_)));
    assert_eq!(message.elements[2], MessageElement::Text(" in your cart.".to_string()));
}

#[test]
fn test_parse_simple_select() {
    let result = parse_message(
        "{gender, select, male{He likes this.} female{She likes this.} other{They like this.}}",
    );
    assert!(result.is_ok());
    let message = result.unwrap();
    assert_eq!(message.elements.len(), 1);

    if let MessageElement::Select(select_expr) = &message.elements[0] {
        assert_eq!(select_expr.parameter, "gender");
        assert_eq!(select_expr.cases.len(), 3);

        assert_eq!(select_expr.cases[0].selector, "male");
        assert_eq!(select_expr.cases[0].message.elements.len(), 1);
        assert_eq!(
            select_expr.cases[0].message.elements[0],
            MessageElement::Text("He likes this.".to_string())
        );

        assert_eq!(select_expr.cases[1].selector, "female");
        assert_eq!(
            select_expr.cases[1].message.elements[0],
            MessageElement::Text("She likes this.".to_string())
        );

        assert_eq!(select_expr.cases[2].selector, "other");
        assert_eq!(
            select_expr.cases[2].message.elements[0],
            MessageElement::Text("They like this.".to_string())
        );
    } else {
        panic!("Expected select expression");
    }
}

#[test]
fn test_parse_number_basic() {
    let result = parse_message("{count, number}");
    assert!(result.is_ok());
    let message = result.unwrap();
    assert_eq!(message.elements.len(), 1);

    if let MessageElement::Number(number_expr) = &message.elements[0] {
        assert_eq!(number_expr.parameter, "count");
        assert_eq!(number_expr.format_type, NumberFormatType::Number);
    } else {
        panic!("Expected number expression");
    }
}

#[test]
fn test_parse_number_integer() {
    let result = parse_message("{count, number, integer}");
    assert!(result.is_ok());
    let message = result.unwrap();
    assert_eq!(message.elements.len(), 1);

    if let MessageElement::Number(number_expr) = &message.elements[0] {
        assert_eq!(number_expr.parameter, "count");
        assert_eq!(number_expr.format_type, NumberFormatType::Integer);
    } else {
        panic!("Expected number expression");
    }
}

#[test]
fn test_parse_number_currency_eur() {
    let result = parse_message("{price, number, currency/EUR}");
    assert!(result.is_ok());
    let message = result.unwrap();
    assert_eq!(message.elements.len(), 1);

    if let MessageElement::Number(number_expr) = &message.elements[0] {
        assert_eq!(number_expr.parameter, "price");
        assert_eq!(number_expr.format_type, NumberFormatType::Currency("EUR".to_string()));
    } else {
        panic!("Expected number expression");
    }
}
