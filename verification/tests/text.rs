use tide_rs::text::{
    join_dotted, leading, parse_bool, parse_int, same_text, split_on, strip_class, trailing,
    trim_space, CharClass,
};

const SAMPLES: [&str; 16] = [
    "",
    " ",
    "a",
    "  a  ",
    "\t\r\n x y \u{b}\u{c}",
    "\u{85}\u{a0}mid\u{1680}\u{2000}",
    "\u{2003}\u{200a}in ner\u{2028}\u{2029}",
    "\u{202f}\u{205f}\u{3000}",
    "\u{200b}zero width\u{200b}",
    "\u{feff}bom",
    "\u{1f}unit\u{1c}",
    "a,b,,c",
    ",",
    ",,a,",
    "[[1, 2]]",
    "caf\u{e9} = \u{1f600}, x",
];

#[test]
fn trimming_agrees_with_the_standard_library() {
    for s in SAMPLES {
        assert_eq!(trim_space(s), s.trim(), "{:?}", s);
        assert_eq!(strip_class(s, CharClass::Only('[')), s.trim_matches('['), "{:?}", s);
        assert_eq!(strip_class(s, CharClass::Only(',')), s.trim_matches(','), "{:?}", s);
    }
    assert_eq!(strip_class("[[[", CharClass::Only('[')), "");
    assert_eq!(strip_class("[a[b[", CharClass::Only('[')), "a[b");
    assert_eq!(trim_space("  a b  "), "a b");
}

#[test]
fn white_space_is_the_unicode_property() {
    for n in 0..0x3100u32 {
        if let Some(c) = char::from_u32(n) {
            assert_eq!(CharClass::Space.contains(c), c.is_whitespace(), "U+{:04X}", n);
        }
    }
    assert!(CharClass::Only('x').contains('x'));
    assert!(!CharClass::Only('x').contains('y'));
    assert!(CharClass::Except('x').contains('y'));
    assert!(!CharClass::Except('x').contains('x'));
}

#[test]
fn leading_and_trailing_counts() {
    assert_eq!(leading("  ab ", CharClass::Space), 2);
    assert_eq!(trailing("  ab ", CharClass::Space), 1);
    assert_eq!(leading("   ", CharClass::Space), 3);
    assert_eq!(trailing("   ", CharClass::Space), 3);
    assert_eq!(leading("", CharClass::Space), 0);
    assert_eq!(leading("key=value", CharClass::Except('=')), 3);
    assert_eq!(leading("no separator", CharClass::Except('=')), 12);
    assert_eq!(leading("\u{e9}\u{e9}=", CharClass::Except('=')), 2);
}

#[test]
fn splitting_agrees_with_the_standard_library() {
    for s in SAMPLES {
        let expected: Vec<&str> = s.split(',').collect();
        assert_eq!(split_on(s, ','), expected, "{:?}", s);
    }
    assert_eq!(split_on("a,b,,c", ','), vec!["a", "b", "", "c"]);
    assert_eq!(split_on("", ','), vec![""]);
}

#[test]
fn joining_puts_dots_between_parts() {
    assert_eq!(join_dotted(&Vec::new()), "");
    assert_eq!(join_dotted(&vec!["a".to_string()]), "a");
    assert_eq!(join_dotted(&vec!["a".to_string(), "b".to_string(), "c".to_string()]), "a.b.c");
    assert_eq!(join_dotted(&vec![String::new(), "b".to_string()]), ".b");
}

#[test]
fn integers_agree_with_the_standard_library() {
    let samples = [
        "0", "7", "007", "-0", "+0", "+5", "-5", "2147483647", "2147483648", "-2147483648",
        "-2147483649", "+2147483647", "99999999999999999999999", "-99999999999999999999999", "",
        "-", "+", "+-1", "--1", "1 ", " 1", "1_000", "0x10", "1.0", "1e3", "\u{661}", "12a", "a12",
        "00000000000000000000001", "4294967296",
    ];
    for s in samples {
        assert_eq!(parse_int(s), s.parse::<i32>().ok(), "{:?}", s);
    }
    assert_eq!(parse_int("3306"), Some(3306));
    assert_eq!(parse_int("-2147483648"), Some(i32::MIN));
    assert_eq!(parse_int("2147483648"), None);
}

#[test]
fn booleans_agree_with_the_standard_library() {
    for s in ["true", "false", "True", "FALSE", "", "t", "1", "0", " true", "true ", "truee"] {
        assert_eq!(parse_bool(s), s.parse::<bool>().ok(), "{:?}", s);
    }
}

#[test]
fn same_text_compares_characters() {
    assert!(same_text("", ""));
    assert!(same_text("array[integer]", "array[integer]"));
    assert!(!same_text("array[integer]", "array[string]"));
    assert!(!same_text("a", "ab"));
    assert!(!same_text("\u{e9}", "e"));
}
