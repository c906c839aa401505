use tide_rs::parser::{scan_line, typed, Scanned};
use tide_rs::store::Loader;
use tide_rs::{ConfigError, ConfigValue, TIDE};

fn lines(text: &str) -> Vec<String> {
    text.lines().map(|l| l.to_string()).collect()
}

fn stored(tide: &TIDE, key: &str) -> Option<ConfigValue> {
    tide.get(key).cloned()
}

const DATABASE: &str = "database {\n  host: string = \"localhost\"\n  port: integer = 3306\n}\n";

#[test]
fn test_correct_parsing() {
    let tide_config = TIDE::new(&lines(DATABASE)).unwrap();

    assert_eq!(
        tide_config.get_config_value("database.host", None).unwrap(),
        ConfigValue::String("\"localhost\"".to_string())
    );
    assert_eq!(tide_config.get_config_value("database.port", None).unwrap(), ConfigValue::Integer(3306));
}

#[test]
fn nested_sections_prefix_the_key() {
    let tide = TIDE::new(&lines("a {\nb {\nx: integer = 1\n}\n}\ny: bool = true\n")).unwrap();
    assert_eq!(stored(&tide, "a.b.x"), Some(ConfigValue::Integer(1)));
    assert_eq!(stored(&tide, "y"), Some(ConfigValue::Bool(true)));
    assert_eq!(stored(&tide, "x"), None);
    assert_eq!(tide.data.len(), 2);
}

#[test]
fn closing_a_section_returns_to_the_parent() {
    let tide = TIDE::new(&lines("a {\n b {\n }\n x: integer = 2\n}\nz: integer = 3")).unwrap();
    assert_eq!(stored(&tide, "a.x"), Some(ConfigValue::Integer(2)));
    assert_eq!(stored(&tide, "z"), Some(ConfigValue::Integer(3)));
}

#[test]
fn closing_with_no_open_section_is_ignored() {
    let tide = TIDE::new(&lines("}\n}\nx: integer = 1\n")).unwrap();
    assert_eq!(stored(&tide, "x"), Some(ConfigValue::Integer(1)));
}

#[test]
fn comments_and_blank_lines_change_nothing() {
    let plain = TIDE::new(&lines("a {\nx: integer = 1\n}\n")).unwrap();
    let noisy = TIDE::new(&lines("# top\n\na {\n   \n  # inside: integer = 9\nx: integer = 1\n\t\n}\n#end")).unwrap();
    assert_eq!(plain.data.len(), 1);
    assert_eq!(noisy.data.len(), 1);
    assert_eq!(stored(&noisy, "a.x"), stored(&plain, "a.x"));

    let mut loader = Loader::new();
    loader.feed("s {").unwrap();
    loader.feed("   # a comment {").unwrap();
    loader.feed("").unwrap();
    loader.feed(" \u{3000}\t ").unwrap();
    assert_eq!(loader.context, vec!["s".to_string()]);
    assert_eq!(loader.data.len(), 0);
}

#[test]
fn later_declaration_of_a_key_wins() {
    let tide = TIDE::new(&lines("a {\nx: integer = 1\n}\na {\nx: string = two\n}\n")).unwrap();
    assert_eq!(stored(&tide, "a.x"), Some(ConfigValue::String("two".to_string())));
    assert_eq!(tide.data.len(), 1);
}

#[test]
fn lines_without_equals_or_colon_are_skipped() {
    let tide = TIDE::new(&lines("just words\nname = value\nk: integer = 5\nopen{\n")).unwrap();
    assert_eq!(tide.data.len(), 1);
    assert_eq!(stored(&tide, "k"), Some(ConfigValue::Integer(5)));
}

#[test]
fn declaration_splits_at_first_equals_and_first_colon() {
    let tide = TIDE::new(&lines("url: string = a=b:c\n")).unwrap();
    assert_eq!(stored(&tide, "url"), Some(ConfigValue::String("a=b:c".to_string())));
    match scan_line("  key :  array[string]  =  [x]  ") {
        Scanned::Declaration { name, token, value } => {
            assert_eq!(name, "key");
            assert_eq!(token, "array[string]");
            assert_eq!(value, "[x]");
        }
        other => panic!("not a declaration: {:?}", other),
    }
}

#[test]
fn section_name_is_the_text_before_the_marker() {
    assert!(matches!(scan_line("  database {  "), Scanned::Open("database")));
    assert!(matches!(scan_line("my app   {"), Scanned::Open("my app")));
    assert!(matches!(scan_line("}"), Scanned::Close));
    assert!(matches!(scan_line("  }  "), Scanned::Close));
    assert!(matches!(scan_line("} }"), Scanned::Skipped));
    assert!(matches!(scan_line("# x {"), Scanned::Blank));
    assert!(matches!(scan_line(""), Scanned::Blank));
}

#[test]
fn string_values_keep_their_quotes() {
    assert_eq!(typed("string", "\"localhost\"").unwrap(), ConfigValue::String("\"localhost\"".to_string()));
    assert_eq!(typed("string", "").unwrap(), ConfigValue::String(String::new()));
}

#[test]
fn integer_and_bool_literals() {
    assert_eq!(typed("integer", "3306").unwrap(), ConfigValue::Integer(3306));
    assert_eq!(typed("integer", "-2147483648").unwrap(), ConfigValue::Integer(i32::MIN));
    assert_eq!(typed("integer", "+2147483647").unwrap(), ConfigValue::Integer(i32::MAX));
    assert_eq!(typed("bool", "true").unwrap(), ConfigValue::Bool(true));
    assert_eq!(typed("bool", "false").unwrap(), ConfigValue::Bool(false));
}

#[test]
fn invalid_integer_aborts_the_load() {
    for bad in ["port: integer = 33x", "port: integer = 2147483648", "port: integer =", "port: integer = 1.5"] {
        match TIDE::new(&lines(&format!("ok: bool = true\n{}\nlater: bool = true\n", bad))) {
            Err(ConfigError::ParseError(reason)) => assert_eq!(reason, "Invalid integer"),
            _ => panic!("load went on past {:?}", bad),
        }
    }
}

#[test]
fn invalid_bool_aborts_the_load() {
    for bad in ["True", "1", "", "yes", "truefalse"] {
        match typed("bool", bad) {
            Err(ConfigError::ParseError(reason)) => assert_eq!(reason, "Invalid bool"),
            _ => panic!("accepted {:?}", bad),
        }
    }
}

#[test]
fn array_parsing() {
    let tide = TIDE::new(&lines("numbers: array[integer] = [1, 2, 3]\nnames: array[string] = [ a , b c,d ]\n")).unwrap();
    assert_eq!(stored(&tide, "numbers"), Some(ConfigValue::IntegerArray(vec![1, 2, 3])));
    assert_eq!(
        stored(&tide, "names"),
        Some(ConfigValue::StringArray(vec!["a".to_string(), "b c".to_string(), "d".to_string()]))
    );
    match TIDE::new(&lines("numbers: array[integer] = [1, x, 3]\n")) {
        Err(ConfigError::ParseError(reason)) => assert_eq!(reason, "Invalid integer array"),
        _ => panic!("accepted a non-integer element"),
    }
}

#[test]
fn array_brackets_are_trimmed_at_both_ends() {
    assert_eq!(typed("array[integer]", "[[1,2]]").unwrap(), ConfigValue::IntegerArray(vec![1, 2]));
    assert_eq!(typed("array[integer]", "7").unwrap(), ConfigValue::IntegerArray(vec![7]));
    assert_eq!(
        typed("array[string]", "[]").unwrap(),
        ConfigValue::StringArray(vec![String::new()])
    );
    assert_eq!(
        typed("array[string]", "]a,[b][").unwrap(),
        ConfigValue::StringArray(vec!["a".to_string(), "[b".to_string()])
    );
    assert!(matches!(typed("array[integer]", "[]"), Err(ConfigError::ParseError(_))));
    assert!(matches!(typed("array[integer]", "[1,]"), Err(ConfigError::ParseError(_))));
}

#[test]
fn unknown_type_aborts_the_load() {
    match TIDE::new(&lines("database {\nhost: string = h\nmode: enum = fast\n}\n")) {
        Err(ConfigError::TypeError(reason)) => assert_eq!(reason, "Unknown type"),
        _ => panic!("an unknown type was accepted"),
    }
    assert!(matches!(typed("String", "x"), Err(ConfigError::TypeError(_))));
    assert!(matches!(typed("", "x"), Err(ConfigError::TypeError(_))));
}

#[test]
fn a_failed_line_leaves_the_loader_as_it_was() {
    let mut loader = Loader::new();
    loader.feed("a {").unwrap();
    loader.feed("x: integer = 1").unwrap();
    assert!(loader.feed("y: integer = one").is_err());
    assert_eq!(loader.context, vec!["a".to_string()]);
    assert_eq!(loader.data.len(), 1);
    let tide = loader.finish();
    assert_eq!(stored(&tide, "a.x"), Some(ConfigValue::Integer(1)));
}

#[test]
fn empty_input_gives_an_empty_store() {
    let tide = TIDE::new(&Vec::new()).unwrap();
    assert!(tide.data.is_empty());
    assert_eq!(stored(&tide, "anything"), None);
}

#[test]
fn literals_read_back_as_their_values() {
    for i in [0, 1, -1, 9, 10, 11, 99, 100, 3306, -3306, i32::MAX, i32::MIN, i32::MIN + 1] {
        assert_eq!(typed("integer", &i.to_string()).unwrap(), ConfigValue::Integer(i));
    }
    for b in [true, false] {
        assert_eq!(typed("bool", &b.to_string()).unwrap(), ConfigValue::Bool(b));
    }
    for s in ["", "plain", "\"quoted\"", "with = and : inside", "caf\u{e9}"] {
        assert_eq!(typed("string", s).unwrap(), ConfigValue::String(s.to_string()));
    }
    assert_eq!(
        typed("array[string]", "[alpha,b c,\"d\"]").unwrap(),
        ConfigValue::StringArray(vec!["alpha".to_string(), "b c".to_string(), "\"d\"".to_string()])
    );
    assert_eq!(
        typed("array[integer]", "[-2147483648,0,2147483647]").unwrap(),
        ConfigValue::IntegerArray(vec![i32::MIN, 0, i32::MAX])
    );
    let tide = TIDE::new(&lines("s {\nn: integer = -42\nl: array[integer] = [7]\nt: string = x y\n}")).unwrap();
    assert_eq!(stored(&tide, "s.n"), Some(ConfigValue::Integer(-42)));
    assert_eq!(stored(&tide, "s.l"), Some(ConfigValue::IntegerArray(vec![7])));
    assert_eq!(stored(&tide, "s.t"), Some(ConfigValue::String("x y".to_string())));
}

#[test]
fn brackets_inside_a_list_literal_are_kept() {
    assert_eq!(
        typed("array[string]", "[a[b],c]").unwrap(),
        ConfigValue::StringArray(vec!["a[b]".to_string(), "c".to_string()])
    );
    assert_eq!(
        typed("array[string]", "[,x[]").unwrap(),
        ConfigValue::StringArray(vec![String::new(), "x[".to_string()])
    );
}

#[test]
fn a_line_that_ends_in_the_marker_opens_a_section() {
    let tide = TIDE::new(&lines("x: string = {\ny: integer = 1\n}\nz: integer = 2\n")).unwrap();
    assert_eq!(tide.data.len(), 2);
    assert_eq!(stored(&tide, "x: string =.y"), Some(ConfigValue::Integer(1)));
    assert_eq!(stored(&tide, "z"), Some(ConfigValue::Integer(2)));
    assert_eq!(stored(&tide, "x"), None);
}
