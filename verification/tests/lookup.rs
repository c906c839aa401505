use tide_rs::resolver::{env_key, override_value, replace_dots};
use tide_rs::{ConfigError, ConfigValue, TypeConverter, TIDE};

fn sample() -> TIDE {
    let text = "database {\n  host: string = \"localhost\"\n  port: integer = 3306\n  tls: bool = false\n}\nmyApp {\n  features: array[string] = [a, b]\n  numbers: array[integer] = [1, 2]\n}\n";
    TIDE::new(&text.lines().map(|l| l.to_string()).collect()).unwrap()
}

fn env(text: &str) -> Option<String> {
    Some(text.to_string())
}

#[test]
fn test_correct_parsing_with_env() {
    let tide_config = sample();
    assert_eq!(env_key("database.host"), "DATABASE_HOST");
    assert_eq!(env_key("database.port"), "DATABASE_PORT");

    assert_eq!(
        tide_config.get_config_value("database.host", env("testhost")).unwrap(),
        ConfigValue::String("testhost".to_string())
    );
    assert_eq!(
        tide_config.get_config_value("database.port", env("9999")).unwrap(),
        ConfigValue::Integer(9999)
    );
}

#[test]
fn override_name_is_upper_case_with_underscores() {
    assert_eq!(env_key("myApp.features"), "MYAPP_FEATURES");
    assert_eq!(env_key("a.b.c"), "A_B_C");
    assert_eq!(env_key(""), "");
    assert_eq!(env_key(".x."), "_X_");
    assert_eq!(env_key("stra\u{df}e.\u{e9}"), "STRASSE_\u{c9}");
    assert_eq!(replace_dots("a.b"), "a_b");
    assert_eq!(replace_dots("..."), "___");
    assert_eq!(replace_dots("plain"), "plain");
}

#[test]
fn absent_override_returns_the_stored_value() {
    let tide = sample();
    for key in ["database.host", "database.port", "database.tls", "myApp.features", "myApp.numbers"] {
        assert_eq!(&tide.get_config_value(key, None).unwrap(), tide.get(key).unwrap());
    }
}

#[test]
fn missing_key_is_not_found() {
    let tide = sample();
    assert!(matches!(tide.get_config_value("database.user", None), Err(ConfigError::KeyNotFound)));
    assert!(tide.get("database.user").is_none());
}

#[test]
fn override_without_a_stored_value_is_a_type_error() {
    let tide = sample();
    match tide.get_config_value("database.user", env("root")) {
        Err(ConfigError::TypeError(reason)) => assert_eq!(reason, "Unsupported type"),
        _ => panic!("an override alone was resolved"),
    }
}

#[test]
fn override_keeps_the_kind() {
    let tide = sample();
    match tide.get_config_value("database.port", env("not-a-number")) {
        Err(ConfigError::ParseError(reason)) => assert_eq!(reason, "Invalid integer from env"),
        _ => panic!("a non-numeric override was accepted"),
    }
    assert_eq!(tide.get("database.port"), Some(&ConfigValue::Integer(3306)));
    assert_eq!(tide.get_config_value("database.port", None).unwrap(), ConfigValue::Integer(3306));
    match tide.get_config_value("database.tls", env("maybe")) {
        Err(ConfigError::ParseError(reason)) => assert_eq!(reason, "Invalid bool from env"),
        _ => panic!("a non-boolean override was accepted"),
    }
    assert_eq!(tide.get_config_value("database.tls", env("true")).unwrap(), ConfigValue::Bool(true));
    match tide.get_config_value("myApp.numbers", env("1,x")) {
        Err(ConfigError::ParseError(reason)) => assert_eq!(reason, "Invalid integer array from env"),
        _ => panic!("a non-integer element was accepted"),
    }
}

#[test]
fn override_text_is_taken_as_it_is() {
    let tide = sample();
    assert_eq!(
        tide.get_config_value("database.host", env("  spaced  ")).unwrap(),
        ConfigValue::String("  spaced  ".to_string())
    );
    assert_eq!(
        tide.get_config_value("myApp.features", env("x, y,")).unwrap(),
        ConfigValue::StringArray(vec!["x".to_string(), " y".to_string(), String::new()])
    );
    assert_eq!(
        tide.get_config_value("myApp.numbers", env("4,-5,+6")).unwrap(),
        ConfigValue::IntegerArray(vec![4, -5, 6])
    );
    assert!(matches!(tide.get_config_value("myApp.numbers", env("4, 5")), Err(ConfigError::ParseError(_))));
    assert!(matches!(tide.get_config_value("myApp.numbers", env("[4,5]")), Err(ConfigError::ParseError(_))));
    assert!(matches!(tide.get_config_value("database.port", env(" 1")), Err(ConfigError::ParseError(_))));
}

#[test]
fn override_value_follows_the_stored_kind() {
    assert_eq!(
        override_value(&ConfigValue::Integer(0), "12".to_string()).unwrap(),
        ConfigValue::Integer(12)
    );
    assert_eq!(
        override_value(&ConfigValue::String(String::new()), "12".to_string()).unwrap(),
        ConfigValue::String("12".to_string())
    );
    assert_eq!(
        override_value(&ConfigValue::StringArray(Vec::new()), "12".to_string()).unwrap(),
        ConfigValue::StringArray(vec!["12".to_string()])
    );
}

#[test]
fn conversions_are_strict() {
    let s = ConfigValue::String("text".to_string());
    let i = ConfigValue::Integer(-7);
    let b = ConfigValue::Bool(true);
    let sa = ConfigValue::StringArray(vec!["a".to_string(), "b".to_string()]);
    let ia = ConfigValue::IntegerArray(vec![1, 2, 3]);

    assert_eq!(TypeConverter::to_string(&s).unwrap(), "text");
    assert_eq!(i.to_int().unwrap(), -7);
    assert!(b.to_bool().unwrap());
    assert_eq!(sa.to_string_array().unwrap(), vec!["a".to_string(), "b".to_string()]);
    assert_eq!(ia.to_int_array().unwrap(), vec![1, 2, 3]);

    match TypeConverter::to_string(&i) {
        Err(ConfigError::TypeError(reason)) => assert_eq!(reason, "Expected a String"),
        _ => panic!("an integer was read as a string"),
    }
    match s.to_bool() {
        Err(ConfigError::TypeError(reason)) => assert_eq!(reason, "Expected a Bool"),
        _ => panic!("a string was read as a bool"),
    }
    match s.to_int() {
        Err(ConfigError::TypeError(reason)) => assert_eq!(reason, "Expected an Integer"),
        _ => panic!("a string was read as an integer"),
    }
    match ia.to_string_array() {
        Err(ConfigError::TypeError(reason)) => assert_eq!(reason, "Expected a String Array"),
        _ => panic!("integers were read as strings"),
    }
    match sa.to_int_array() {
        Err(ConfigError::TypeError(reason)) => assert_eq!(reason, "Expected an Integer Array"),
        _ => panic!("strings were read as integers"),
    }
}

#[test]
fn clone_keeps_the_value() {
    for v in [
        ConfigValue::String("x".to_string()),
        ConfigValue::Integer(5),
        ConfigValue::Bool(false),
        ConfigValue::StringArray(vec!["a".to_string(), String::new()]),
        ConfigValue::IntegerArray(vec![i32::MIN, 0, i32::MAX]),
    ] {
        assert_eq!(v.clone(), v);
    }
}

#[test]
fn io_errors_are_carried() {
    let e = ConfigError::from(std::io::Error::new(std::io::ErrorKind::NotFound, "gone"));
    match e {
        ConfigError::IOError(inner) => assert_eq!(inner.kind(), std::io::ErrorKind::NotFound),
        _ => panic!("the error changed its class"),
    }
}
