use dynprops::attribute::{Attribute, ButtonTypeOption, Family, SerializeError, Value};
use dynprops::text::{is_valid_name, is_valid_token, write_decimal, write_flag};

#[test]
fn decimal_of_zero() {
    assert_eq!(write_decimal(0), "0");
}

#[test]
fn decimal_of_small_numbers() {
    assert_eq!(write_decimal(7), "7");
    assert_eq!(write_decimal(10), "10");
    assert_eq!(write_decimal(42), "42");
    assert_eq!(write_decimal(1000), "1000");
    assert_eq!(write_decimal(-1), "-1");
    assert_eq!(write_decimal(-305), "-305");
}

#[test]
fn decimal_of_the_extremes() {
    assert_eq!(write_decimal(i64::MAX), "9223372036854775807");
    assert_eq!(write_decimal(i64::MIN), "-9223372036854775808");
}

#[test]
fn decimal_agrees_with_the_standard_form() {
    let mut n: i64 = -2500;
    while n <= 2500 {
        assert_eq!(write_decimal(n), format!("{}", n));
        n += 1;
    }
}

#[test]
fn flags_are_written_as_literals() {
    assert_eq!(write_flag(true), "true");
    assert_eq!(write_flag(false), "false");
}

#[test]
fn names_the_dom_accepts() {
    assert!(is_valid_name("disabled"));
    assert!(is_valid_name("aria-atomic"));
    assert!(is_valid_name("my-custom-attribute"));
    assert!(is_valid_name("data-x_1"));
    assert!(is_valid_name("é"));
}

#[test]
fn names_the_dom_refuses() {
    assert!(!is_valid_name(""));
    assert!(!is_valid_name("two words"));
    assert!(!is_valid_name("a=b"));
    assert!(!is_valid_name("a/b"));
    assert!(!is_valid_name("a>b"));
    assert!(!is_valid_name("tab\there"));
    assert!(!is_valid_name("line\nbreak"));
    assert!(!is_valid_name("nul\0"));
    assert!(!is_valid_name("feed\x0C"));
    assert!(!is_valid_name("return\r"));
}

#[test]
fn tokens_are_lower_case_words() {
    assert!(is_valid_token("dialog"));
    assert!(is_valid_token("submit"));
    assert!(is_valid_token("grid-2"));
    assert!(!is_valid_token(""));
    assert!(!is_valid_token("Dialog"));
    assert!(!is_valid_token("two words"));
    assert!(!is_valid_token("under_score"));
    assert!(!is_valid_token("é"));
}

#[test]
fn presence_has_no_payload() {
    assert_eq!(Value::Presence.serialize(), Ok(None));
    assert_eq!(Attribute::disabled().payload(), Ok(None));
}

#[test]
fn flag_values_emit_true_and_false() {
    assert_eq!(Value::Flag(true).serialize(), Ok(Some("true".to_string())));
    assert_eq!(Value::Flag(false).serialize(), Ok(Some("false".to_string())));
    assert_eq!(Attribute::aria_atomic(true).payload(), Ok(Some("true".to_string())));
    assert_eq!(Attribute::aria_atomic(false).payload(), Ok(Some("false".to_string())));
}

#[test]
fn enumerated_values_emit_their_token() {
    assert_eq!(
        Value::Token("dialog".to_string()).serialize(),
        Ok(Some("dialog".to_string()))
    );
    assert_eq!(
        Attribute::button_type(ButtonTypeOption::Submit).payload(),
        Ok(Some("submit".to_string()))
    );
    assert_eq!(
        Attribute::button_type(ButtonTypeOption::Reset).payload(),
        Ok(Some("reset".to_string()))
    );
    assert_eq!(
        Attribute::button_type(ButtonTypeOption::Button).payload(),
        Ok(Some("button".to_string()))
    );
}

#[test]
fn integers_emit_their_decimal_form() {
    assert_eq!(Value::Integer(3).serialize(), Ok(Some("3".to_string())));
    assert_eq!(Value::Integer(-12).serialize(), Ok(Some("-12".to_string())));
}

#[test]
fn text_is_emitted_as_it_is() {
    assert_eq!(
        Value::Text("La La".to_string()).serialize(),
        Ok(Some("La La".to_string()))
    );
    assert_eq!(Value::Text(String::new()).serialize(), Ok(Some(String::new())));
}

#[test]
fn a_malformed_token_does_not_serialize() {
    assert_eq!(
        Value::Token("Dialog".to_string()).serialize(),
        Err(SerializeError::MalformedToken)
    );
    assert_eq!(
        Value::Token(String::new()).serialize(),
        Err(SerializeError::MalformedToken)
    );
    let attribute = Attribute::new(Family::Aria, "aria-haspopup", Value::Token("a b".to_string()));
    assert_eq!(attribute.payload(), Err(SerializeError::MalformedToken));
}

#[test]
fn builders_fill_family_key_and_value() {
    let atomic = Attribute::aria_atomic(true);
    assert_eq!(atomic.family, Family::Aria);
    assert_eq!(atomic.key, "aria-atomic");
    assert_eq!(atomic.value, Value::Flag(true));

    let kind = Attribute::button_type(ButtonTypeOption::Submit);
    assert_eq!(kind.family, Family::ButtonHtml);
    assert_eq!(kind.key, "type");
    assert_eq!(kind.value, Value::Token("submit".to_string()));

    let disabled = Attribute::disabled();
    assert_eq!(disabled.family, Family::ButtonHtml);
    assert_eq!(disabled.get_key(), "disabled");
    assert_eq!(disabled.value, Value::Presence);

    let custom = Attribute::custom("my-custom-attribute", Some("lalalala"));
    assert_eq!(custom.family, Family::Custom);
    assert_eq!(custom.key, "my-custom-attribute");
    assert_eq!(custom.value, Value::Text("lalalala".to_string()));

    let bare = Attribute::custom("hidden", None);
    assert_eq!(bare.value, Value::Presence);
}

#[test]
fn values_compare_by_content() {
    assert!(Value::Flag(true).same(&Value::Flag(true)));
    assert!(!Value::Flag(true).same(&Value::Flag(false)));
    assert!(!Value::Flag(true).same(&Value::Text("true".to_string())));
    assert!(Value::Token("a".to_string()).same(&Value::Token("a".to_string())));
    assert!(!Value::Token("a".to_string()).same(&Value::Text("a".to_string())));
    assert!(Value::Integer(4).same(&Value::Integer(4)));
    assert!(!Value::Integer(4).same(&Value::Integer(5)));
    assert!(Value::Presence.same(&Value::Presence));
    assert!(!Value::Presence.same(&Value::Text(String::new())));
}

#[test]
fn values_compare_by_payload() {
    assert!(Value::Flag(true).same_payload(&Value::Text("true".to_string())));
    assert!(Value::Integer(12).same_payload(&Value::Token("12".to_string())));
    assert!(!Value::Presence.same_payload(&Value::Text(String::new())));
    assert!(Value::Presence.same_payload(&Value::Presence));
    assert!(!Value::Flag(true).same_payload(&Value::Flag(false)));
    assert!(Value::Token("A".to_string()).same_payload(&Value::Token(String::new())));
    assert!(!Value::Token("A".to_string()).same_payload(&Value::Text("A".to_string())));
}
