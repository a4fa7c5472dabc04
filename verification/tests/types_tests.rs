use msgfmt::AsParameterValue;
use msgfmt::ParameterValue;
use msgfmt::Parameters;

#[test]
fn test_unique_keys_ok() {
    let params = Parameters::from_slice(&[
        ("name", ParameterValue::String("Alice")),
        ("age", ParameterValue::Number(25)),
        ("city", ParameterValue::String("NYC")),
    ]);

    assert_eq!(params.get("name"), Some(&ParameterValue::String("Alice")));
    assert_eq!(params.get("age"), Some(&ParameterValue::Number(25)));
    assert_eq!(params.get("city"), Some(&ParameterValue::String("NYC")));
    assert_eq!(params.get("unknown"), None);
}

#[test]
fn test_params_macro_with_owned_string() {
    let name = "Alice".to_string();
    let city = String::from("New York");

    let test_fn = |params: Parameters| {
        assert_eq!(params.get("name"), Some(&ParameterValue::String("Alice")));
        assert_eq!(params.get("age"), Some(&ParameterValue::Number(25)));
        assert_eq!(params.get("city"), Some(&ParameterValue::String("New York")));
    };

    let age: i64 = 25;
    test_fn(Parameters::from_slice(&[
        ("name", AsParameterValue::as_parameter_value(&name)),
        ("age", AsParameterValue::as_parameter_value(&age)),
        ("city", AsParameterValue::as_parameter_value(&city)),
    ]));
}
