//! Texts, names, s-expressions and diagnostics.
use kiru::diagnostics::{clamped_span, spanned_report, spanned_report_on, SourceFile};
use kiru::ir::Ir;
use kiru::names::{place, NameMap, Place};
use kiru::plan::Plan;
use kiru::sexp::{
    expect_str, expect_sym, expect_sym_arg, parse_sexp_tokens, tokenize_kirufile, Sexp, Token,
};
use kiru::text::{byte_count, decimal_text, parse_number, same, trim_text, NumberError};

#[test]
fn numbers_are_read_back() {
    for n in [0, 7, 10, 4096, u64::MAX] {
        assert_eq!(decimal_text(n), format!("{n}"));
        assert_eq!(parse_number(&decimal_text(n), u64::MAX), Ok(n));
    }
    assert_eq!(parse_number("+12", u64::MAX), Ok(12));
    assert_eq!(parse_number("007", u64::MAX), Ok(7));
}

#[test]
fn texts_that_are_no_numbers_say_why() {
    assert_eq!(parse_number("", 9), Err(NumberError::Empty));
    assert_eq!(parse_number("+", 9), Err(NumberError::InvalidDigit));
    assert_eq!(parse_number("1x", 99), Err(NumberError::InvalidDigit));
    assert_eq!(parse_number("10", 9), Err(NumberError::TooLarge));
    for (text, error) in [
        ("", NumberError::Empty),
        ("x", NumberError::InvalidDigit),
        ("99999999999999999999", NumberError::TooLarge),
    ] {
        let expected = text.parse::<u64>().unwrap_err();
        assert_eq!(error.message(), format!("{expected}"));
    }
}

#[test]
fn blanks_are_cut_off_both_ends() {
    assert_eq!(trim_text(" \t a b\u{a0}\n"), "a b");
    assert_eq!(trim_text(" "), "");
    assert_eq!(byte_count("aé│"), 6);
    assert!(same("aé", "aé"));
    assert!(!same("a", "ab"));
}

#[test]
fn names_are_kept_in_order() {
    let mut map: NameMap<u8> = NameMap::new();
    map.insert("b".to_string(), 2);
    map.insert("a".to_string(), 1);
    map.insert("b".to_string(), 3);
    map.insert("ab".to_string(), 4);
    assert_eq!(map.len(), 3);
    assert_eq!(map.get("b"), Some(&3));
    assert_eq!(map.get("c"), None);
    assert_eq!(map.name_at(1), "ab");
    assert_eq!(map.value_at(1), &4);
    assert_eq!(map.take("a"), Some(1));
    assert_eq!(map.take("a"), None);
    assert_eq!(
        map.into_entries(),
        vec![("ab".to_string(), 4), ("b".to_string(), 3)]
    );
    assert!(matches!(place("a", "ab"), Place::Before));
    assert!(matches!(place("b", "ab"), Place::After));
    assert!(matches!(place("b", "b"), Place::Same));
}

#[test]
fn spans_stay_inside_their_text() {
    let span = |text: &str, offset, len| {
        let s = clamped_span(text, offset, len);
        (s.offset, s.len)
    };
    assert_eq!(span("hello", 1, 3), (1, 3));
    assert_eq!(span("hello", 1, 0), (1, 1));
    assert_eq!(span("hello", 3, 9), (3, 2));
    assert_eq!(span("hello", 99, 2), (4, 1));
    assert_eq!(span("", 3, 3), (0, 0));
}

#[test]
fn reports_are_about_their_source() {
    let mut sources = NameMap::new();
    sources.insert("a.kiru".to_string(), "text".to_string());
    let known = spanned_report_on("oops".to_string(), &sources, "a.kiru", 2, 9);
    assert_eq!(known.source_text, "text");
    assert_eq!((known.span.offset, known.span.len), (2, 2));
    assert_eq!(known.msg, "oops");
    let unknown = spanned_report_on("oops".to_string(), &sources, "b.kiru", 2, 9);
    assert_eq!(unknown.source_name, "b.kiru");
    assert_eq!((unknown.span.offset, unknown.span.len), (0, 0));
    let source = SourceFile {
        name: "c",
        text: "xyz",
    };
    let direct = spanned_report("m".to_string(), &source, 0, 0);
    assert_eq!((direct.span.offset, direct.span.len), (0, 1));
}

#[test]
fn kirufiles_are_cut_into_tokens() {
    let tokens = tokenize_kirufile("(a \"b\\n\\\"\") ; c").unwrap();
    assert_eq!(tokens[0], (Token::LParen, "(".to_string()));
    assert_eq!(tokens[1], (Token::Sym, "a".to_string()));
    assert_eq!(tokens[2], (Token::Str, "b\n\"".to_string()));
    assert_eq!(tokens[3], (Token::RParen, ")".to_string()));
    // A string that is not closed reaches to the end.
    assert_eq!(
        tokenize_kirufile("\"open").unwrap(),
        vec![(Token::Str, "open".to_string())]
    );
    // A character by its number.
    assert_eq!(
        tokenize_kirufile("\"\\u{41}bc\"").unwrap(),
        vec![(Token::Str, "Abc".to_string())]
    );
}

#[test]
fn tokens_are_read_as_a_tree() {
    let tokens = tokenize_kirufile("(a (\"b\") c)").unwrap();
    let mut pos = 0;
    let tree = parse_sexp_tokens(&tokens, &mut pos).unwrap();
    assert_eq!(pos, tokens.len());
    let items = match &tree {
        Sexp::List(items) => items,
        other => panic!("expected a list, got {other:?}"),
    };
    assert_eq!(items.len(), 3);
    assert_eq!(expect_sym(items, 0, "a"), Ok(()));
    assert!(expect_sym(items, 0, "b").is_err());
    assert!(expect_str(items, 0, "x").is_err());
    assert_eq!(expect_sym_arg(items, 2, "x"), Ok("c".to_string()));
    assert!(expect_sym_arg(items, 9, "x").is_err());

    let open = tokenize_kirufile("(a").unwrap();
    let mut pos = 0;
    assert!(parse_sexp_tokens(&open, &mut pos).is_err());
}

#[test]
fn texts_that_are_no_kirufiles_are_refused() {
    for text in ["", "()", "(plan)", "(kirufile (unknown))", "(kirufile", "x"] {
        assert!(Ir::deserialize(text).is_err(), "{text}");
        assert!(Plan::from_kirufile(text).is_err(), "{text}");
    }
    assert!(Ir::deserialize("(kirufile (timeout x))").is_err());
    assert!(Ir::deserialize("(kirufile (timeout 5))").is_ok());
}
