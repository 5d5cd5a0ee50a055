use uasat::lexer::{Item, Lexer, Pos, OPERATORS};

fn tokens(text: &str) -> Vec<(String, u32, u32)> {
    let mut lexer = Lexer::new(text);
    let mut found = Vec::new();
    while let Some((item, pos)) = lexer.next() {
        found.push((format!("{:?}", item), pos.line, pos.col));
    }
    assert!(lexer.next().is_none());
    found
}

fn token(text: &str, line: u32, col: u32) -> (String, u32, u32) {
    (text.to_string(), line, col)
}

#[test]
fn identifiers_integers_and_operators() {
    assert_eq!(
        tokens("foo(12, x1) = 3."),
        vec![
            token("Identifier(\"foo\")", 1, 1),
            token("Operator('(')", 1, 4),
            token("Integer(12)", 1, 5),
            token("Operator(',')", 1, 7),
            token("Identifier(\"x1\")", 1, 9),
            token("Operator(')')", 1, 11),
            token("Operator('=')", 1, 13),
            token("Integer(3)", 1, 15),
            token("Operator('.')", 1, 16),
        ]
    );
}

#[test]
fn every_operator_is_a_token() {
    assert_eq!(OPERATORS, "()[],=.");
    for c in OPERATORS.chars() {
        assert!(Lexer::is_operator(c));
        let text = c.to_string();
        let mut lexer = Lexer::new(&text);
        match lexer.next() {
            Some((Item::Operator(found), Pos { line: 1, col: 1 })) => assert_eq!(found, c),
            other => panic!("unexpected token {:?}", other),
        }
        assert!(lexer.next().is_none());
    }
    assert!(!Lexer::is_operator('+'));
    assert!(!Lexer::is_operator('a'));
}

#[test]
fn lines_and_columns() {
    assert_eq!(
        tokens("a\n  b\n\nc d"),
        vec![
            token("Identifier(\"a\")", 1, 1),
            token("Identifier(\"b\")", 2, 3),
            token("Identifier(\"c\")", 4, 1),
            token("Identifier(\"d\")", 4, 3),
        ]
    );
}

#[test]
fn empty_and_blank_input() {
    assert_eq!(tokens(""), vec![]);
    assert_eq!(tokens("  \n\t \n"), vec![]);
}

#[test]
fn integers_up_to_32_bits() {
    assert_eq!(tokens("0"), vec![token("Integer(0)", 1, 1)]);
    assert_eq!(tokens("007"), vec![token("Integer(7)", 1, 1)]);
    assert_eq!(
        tokens("4294967295"),
        vec![token("Integer(4294967295)", 1, 1)]
    );
    assert_eq!(
        tokens("4294967296"),
        vec![token("Error(\"too large integer\")", 1, 1)]
    );
    assert_eq!(
        tokens("x 99999999999 y"),
        vec![
            token("Identifier(\"x\")", 1, 1),
            token("Error(\"too large integer\")", 1, 3)
        ]
    );
}

#[test]
fn integer_followed_by_letters() {
    assert_eq!(
        tokens("12ab"),
        vec![
            token("Integer(12)", 1, 1),
            token("Identifier(\"ab\")", 1, 3)
        ]
    );
}

#[test]
fn unexpected_character_ends_the_tokens() {
    assert_eq!(
        tokens("a + b"),
        vec![
            token("Identifier(\"a\")", 1, 1),
            token("Error(\"unexpected character\")", 1, 3)
        ]
    );
}

#[test]
fn letters_beyond_ascii() {
    assert_eq!(
        tokens("\u{e9}t\u{e9}=\u{3b1}2"),
        vec![
            token("Identifier(\"\u{e9}t\u{e9}\")", 1, 1),
            token("Operator('=')", 1, 4),
            token("Identifier(\"\u{3b1}2\")", 1, 5),
        ]
    );
}

#[test]
fn add_digit_checks_the_range() {
    assert_eq!(Lexer::add_digit(0, 0), Some(0));
    assert_eq!(Lexer::add_digit(12, 3), Some(123));
    assert_eq!(Lexer::add_digit(429496729, 5), Some(4294967295));
    assert_eq!(Lexer::add_digit(429496729, 6), None);
    assert_eq!(Lexer::add_digit(429496730, 0), None);
    assert_eq!(Lexer::add_digit(u32::MAX, 0), None);
}

#[test]
fn positions_as_text() {
    assert_eq!(Pos { line: 3, col: 14 }.to_string(), "line 3 col 14");
    assert_eq!(Pos { line: 1, col: 1 }.to_string(), "line 1 col 1");
    assert_eq!(
        Pos {
            line: u32::MAX,
            col: 100
        }
        .to_string(),
        "line 4294967295 col 100"
    );
}

#[test]
fn tokens_as_text() {
    assert_eq!(Item::Integer(5).to_string(), "Integer(5)");
    assert_eq!(Item::Operator('(').to_string(), "Operator('(')");
    assert_eq!(
        Item::Identifier("abc".to_string()).to_string(),
        "Identifier(\"abc\")"
    );
    assert_eq!(
        Item::Error("unexpected character").to_string(),
        "Error(\"unexpected character\")"
    );
    let mut lexer = Lexer::new("x7");
    let (item, pos) = lexer.next().unwrap();
    assert_eq!(item.to_string(), "Identifier(\"x7\")");
    assert_eq!(pos.to_string(), "line 1 col 1");
}

#[test]
fn numeric_characters_that_are_not_decimal_digits() {
    assert_eq!(
        tokens("x\u{663}"),
        vec![token("Identifier(\"x\u{663}\")", 1, 1)]
    );
    assert_eq!(
        tokens("\u{663}"),
        vec![token("Error(\"unexpected character\")", 1, 1)]
    );
    assert_eq!(
        tokens("1\u{663}"),
        vec![
            token("Integer(1)", 1, 1),
            token("Error(\"unexpected character\")", 1, 2)
        ]
    );
}

#[test]
fn whitespace_beyond_ascii() {
    assert_eq!(
        tokens("a\u{a0}b\u{2003}c"),
        vec![
            token("Identifier(\"a\")", 1, 1),
            token("Identifier(\"b\")", 1, 3),
            token("Identifier(\"c\")", 1, 5),
        ]
    );
}
