use auto_shortcut::number::{
    compare_numerals, float_literal, parse_decimal, parse_signed, parse_unsigned, to_decimal_text,
};
use auto_shortcut::template::{compare, Comparison, TemplateEngine};
use auto_shortcut::text::{
    chars_of, find, has, less_text, replaced, split_on, string_of, trimmed, trimmed_char,
};
use auto_shortcut::winpath::{
    do_overlap, extension_of, file_name_of, is_absolute_path, is_same_path, joined, lies_within,
    parent_of, stem_of,
};

fn c(s: &str) -> Vec<char> {
    s.chars().collect()
}

fn t(v: Vec<char>) -> String {
    v.into_iter().collect()
}

#[test]
fn texts_convert_both_ways() {
    assert_eq!(chars_of("aé文"), vec!['a', 'é', '文']);
    assert_eq!(string_of(&['a', 'é', '文']), "aé文");
    assert_eq!(string_of(&[]), "");
}

#[test]
fn searching() {
    assert_eq!(find(&c("abcabc"), &c("bc"), 0), Some(1));
    assert_eq!(find(&c("abcabc"), &c("bc"), 2), Some(4));
    assert_eq!(find(&c("abcabc"), &c("bc"), 5), None);
    assert_eq!(find(&c("abc"), &c(""), 3), Some(3));
    assert_eq!(find(&c("abc"), &c(""), 4), None);
    assert_eq!(find(&c("ab"), &c("abc"), 0), None);
    assert!(has(&c("abc"), &c("")));
    assert!(!has(&c("abc"), &c("ac")));
}

#[test]
fn replacing_and_splitting() {
    assert_eq!(t(replaced(&c("aXbXXc"), &c("X"), &c("--"))), "a--b----c");
    assert_eq!(t(replaced(&c("aaa"), &c("aa"), &c("b"))), "ba");
    assert_eq!(t(replaced(&c("abc"), &c(""), &c("-"))), "-a-b-c-");
    assert_eq!(t(replaced(&c(""), &c(""), &c("-"))), "-");
    assert_eq!(t(replaced(&c("abc"), &c("x"), &c("y"))), "abc");
    let parts: Vec<String> = split_on(&c("a??b????c"), &c("??")).into_iter().map(t).collect();
    assert_eq!(parts, vec!["a", "b", "", "c"]);
    let parts: Vec<String> = split_on(&c("abc"), &c("|")).into_iter().map(t).collect();
    assert_eq!(parts, vec!["abc"]);
    let parts: Vec<String> = split_on(&c("|"), &c("|")).into_iter().map(t).collect();
    assert_eq!(parts, vec!["", ""]);
    let parts: Vec<String> = split_on(&c("abc"), &c("")).into_iter().map(t).collect();
    assert_eq!(parts, vec!["abc"]);
}

#[test]
fn trimming() {
    assert_eq!(t(trimmed(&c(" \t a b \u{3000}\n"))), "a b");
    assert_eq!(t(trimmed(&c(" \u{00A0} "))), "");
    assert_eq!(t(trimmed(&c("\u{200B}a"))), "\u{200B}a");
    assert_eq!(t(trimmed_char(&c("**a*b**"), '*')), "a*b");
    assert_eq!(t(trimmed_char(&c("***"), '*')), "");
}

#[test]
fn texts_are_ordered_by_code_point() {
    assert!(less_text(&c("a"), &c("b")));
    assert!(less_text(&c("ab"), &c("abc")));
    assert!(less_text(&c(""), &c("a")));
    assert!(!less_text(&c("a"), &c("a")));
    assert!(!less_text(&c("b"), &c("ab")));
    assert!(less_text(&c("Z"), &c("a")));
    assert!(less_text(&c("z"), &c("é")));
}

#[test]
fn paths() {
    assert_eq!(t(file_name_of(&c("C:\\a\\b.txt"))), "b.txt");
    assert_eq!(t(file_name_of(&c("a/b\\c"))), "c");
    assert_eq!(t(file_name_of(&c("plain"))), "plain");
    assert_eq!(t(parent_of(&c("C:\\a\\b.txt"))), "C:\\a");
    assert_eq!(t(parent_of(&c("plain"))), "");
    assert_eq!(t(stem_of(&c("a.tar.gz"))), "a.tar");
    assert_eq!(t(stem_of(&c(".hidden"))), ".hidden");
    assert_eq!(t(stem_of(&c("name."))), "name");
    assert_eq!(extension_of(&c("a.tar.gz")).map(t), Some("gz".to_string()));
    assert_eq!(extension_of(&c(".hidden")), None);
    assert_eq!(extension_of(&c("name.")).map(t), Some("".to_string()));
    assert_eq!(extension_of(&c("name")), None);
    assert_eq!(t(joined(&c("C:\\a"), &c("b"))), "C:\\a\\b");
    assert_eq!(t(joined(&c("C:\\a/"), &c("b"))), "C:\\a/b");
    assert_eq!(t(joined(&c(""), &c("b"))), "b");
    assert!(is_absolute_path(&c("C:\\x")));
    assert!(is_absolute_path(&c("c:/x")));
    assert!(is_absolute_path(&c("\\\\server\\share")));
    assert!(!is_absolute_path(&c("C:x")));
    assert!(!is_absolute_path(&c("\\x")));
    assert!(!is_absolute_path(&c("x\\y")));
    assert!(is_same_path(&c("C:/A/b"), &c("c:\\a\\B")));
    assert!(!is_same_path(&c("C:/A/b"), &c("c:\\a\\b\\")));
    assert!(lies_within(&c("C:\\a\\b"), &c("c:/A")));
    assert!(lies_within(&c("C:\\a"), &c("C:\\a")));
    assert!(lies_within(&c("C:\\a"), &c("C:\\")));
    assert!(!lies_within(&c("C:\\ab"), &c("C:\\a")));
    assert!(!lies_within(&c("C:\\a"), &c("C:\\a\\b")));
    assert!(do_overlap(&c("C:\\a"), &c("C:\\a\\b")));
    assert!(!do_overlap(&c("C:\\a\\c"), &c("C:\\a\\b")));
}

#[test]
fn float_literals() {
    for yes in [
        "0", "12", "+12", "-12", "1.5", "1.", ".5", "-.5", "1e5", "1E5", "1e+5", "1.e-5", ".5e1",
        "inf", "-Infinity", "+INF", "NaN", "nan", "007",
    ] {
        assert!(float_literal(&c(yes)), "{}", yes);
    }
    for no in [
        "", "+", "-", ".", "e5", "1e", "1e+", "1.5.2", " 1", "1 ", "1f", "0x10", "infinit", "nane",
        "--1", "1,5", "1e5.0", "+.", ".e1",
    ] {
        assert!(!float_literal(&c(no)), "{}", no);
    }
}

#[test]
fn integers() {
    assert_eq!(parse_signed(&c("0")), Some(0));
    assert_eq!(parse_signed(&c("-12")), Some(-12));
    assert_eq!(parse_signed(&c("+12")), Some(12));
    assert_eq!(parse_signed(&c("9223372036854775807")), Some(i64::MAX));
    assert_eq!(parse_signed(&c("9223372036854775808")), None);
    assert_eq!(parse_signed(&c("-9223372036854775808")), Some(i64::MIN));
    assert_eq!(parse_signed(&c("-9223372036854775809")), None);
    assert_eq!(parse_signed(&c("")), None);
    assert_eq!(parse_signed(&c("-")), None);
    assert_eq!(parse_signed(&c("1 ")), None);
    assert_eq!(parse_signed(&c("1.0")), None);
    assert_eq!(parse_unsigned(&c("18446744073709551615")), Some(u64::MAX));
    assert_eq!(parse_unsigned(&c("18446744073709551616")), None);
    assert_eq!(parse_unsigned(&c("+7")), Some(7));
    assert_eq!(parse_unsigned(&c("-7")), None);
    assert_eq!(parse_unsigned(&c("+")), None);
    assert_eq!(t(to_decimal_text(0)), "0");
    assert_eq!(t(to_decimal_text(7)), "7");
    assert_eq!(t(to_decimal_text(1234567890)), "1234567890");
    assert_eq!(t(to_decimal_text(u128::MAX)), u128::MAX.to_string());
}

#[test]
fn decimals_are_compared_as_numbers() {
    let order = |a: &str, b: &str| compare_numerals(&c(a), &c(b));
    assert_eq!(order("10", "9"), Some(1));
    assert_eq!(order("10", "10.0"), Some(0));
    assert_eq!(order("-1", "0.5"), Some(-1));
    assert_eq!(order("-0", "0"), Some(0));
    assert_eq!(order(".5", "0.49"), Some(1));
    assert_eq!(order("123456789012345678", "0.00000000000000001"), Some(1));
    assert_eq!(order("-999999999999999999", "999999999999999999"), Some(-1));
    assert_eq!(order("1e3", "5"), None);
    assert_eq!(order("5", "abc"), None);
    assert!(parse_decimal(&c("1234567890123456789")).is_none());
    assert!(parse_decimal(&c("1e3")).is_none());
    assert!(parse_decimal(&c("")).is_none());
    assert!(parse_decimal(&c(".")).is_none());
    assert!(parse_decimal(&c("inf")).is_none());
    assert_eq!(parse_decimal(&c("-12.50")).map(|d| (d.mantissa, d.scale)), Some((-1250, 2)));
    assert_eq!(parse_decimal(&c("7.")).map(|d| (d.mantissa, d.scale)), Some((7, 0)));

    assert!(compare(Comparison::Greater, &c("10"), &c("9")));
    assert!(!compare(Comparison::Greater, &c("10"), &c("9a")));
    assert!(compare(Comparison::Less, &c("1e3"), &c("5")));
    assert!(compare(Comparison::Equal, &c("1.50"), &c("1.5")));
    assert!(compare(Comparison::NotEqual, &c("a"), &c("A")));
    assert!(compare(Comparison::LessOrEqual, &c("a"), &c("a")));
    assert!(compare(Comparison::GreaterOrEqual, &c("b"), &c("a")));
}

#[test]
fn top_level_characters() {
    let engine = TemplateEngine::with_offset(0);
    assert_eq!(engine.find_top_level_char("slice:1,2", ':'), Some(5));
    assert_eq!(engine.find_top_level_char("'a:b':c", ':'), Some(5));
    assert_eq!(engine.find_top_level_char("\"a:b\"", ':'), None);
    assert_eq!(engine.find_top_level_char("{a:b}:c", ':'), Some(5));
    assert_eq!(engine.find_top_level_char("a\\:b:c", ':'), Some(4));
    assert_eq!(engine.find_top_level_char("文:b", ':'), Some(3));
    assert_eq!(engine.find_top_level_char("}:", ':'), Some(1));
    assert_eq!(engine.find_top_level_char("", ':'), None);
    assert_eq!(engine.offset(), 0);
}
