use minic::error::{Error, ErrorKind};
use minic::lexer::{scan, LexerOutput};
use minic::token::{FloatConst, Identifier, Position, QualifierKind, RelopKind, Token, TokenKind};

fn chars(s: &str) -> Vec<char> {
    s.chars().collect()
}

fn scan_str(s: &str) -> Result<LexerOutput, Error> {
    scan(&chars(s))
}

fn kinds_at(s: &str) -> Vec<(TokenKind, usize, usize)> {
    scan_str(s)
        .unwrap()
        .tokens
        .into_iter()
        .map(|t| (t.kind, t.pos.line, t.pos.col))
        .collect()
}

fn float(int_part: u32, frac_num: u64, frac_len: u64) -> TokenKind {
    TokenKind::FloatingConstant(FloatConst { int_part, frac_num, frac_len })
}

#[test]
fn scan_integer() {
    assert_eq!(kinds_at("123"), vec![(TokenKind::IntegerConstant(123), 1, 1)]);
}

#[test]
fn scan_integer_on_second_line() {
    assert_eq!(kinds_at("\n123"), vec![(TokenKind::IntegerConstant(123), 2, 1)]);
}

#[test]
fn scan_zero() {
    assert_eq!(kinds_at("0"), vec![(TokenKind::IntegerConstant(0), 1, 1)]);
}

#[test]
fn scan_floats() {
    assert_eq!(kinds_at("0.1"), vec![(float(0, 1, 1), 1, 1)]);
    assert_eq!(kinds_at("1."), vec![(float(1, 0, 0), 1, 1)]);
    assert_eq!(kinds_at("0. \n"), vec![(float(0, 0, 0), 1, 1)]);
    assert_eq!(kinds_at(".0"), vec![(float(0, 0, 1), 1, 1)]);
    assert_eq!(kinds_at("1.2"), vec![(float(1, 2, 1), 1, 1)]);
    assert_eq!(kinds_at("1.2345"), vec![(float(1, 2345, 4), 1, 1)]);
}

#[test]
fn scan_float_then_integer() {
    assert_eq!(
        kinds_at("1.2345 1"),
        vec![(float(1, 2345, 4), 1, 1), (TokenKind::IntegerConstant(1), 1, 8)]
    );
}

#[test]
fn float_value_reconstructs() {
    let out = scan_str("1.2345").unwrap();
    match out.tokens[0].kind {
        TokenKind::FloatingConstant(f) => {
            let v = f.int_part as f64 + f.frac_num as f64 / 10f64.powi(f.frac_len as i32);
            assert!((v - 1.2345f64).abs() < 1e-12);
        }
        _ => panic!("expected a floating constant"),
    }
}

#[test]
fn scan_two_floats() {
    assert_eq!(
        kinds_at("0.1 1.2"),
        vec![(float(0, 1, 1), 1, 1), (float(1, 2, 1), 1, 5)]
    );
}

#[test]
fn scan_mixed_numbers() {
    assert_eq!(
        kinds_at("1 2 3 1.2 2.3"),
        vec![
            (TokenKind::IntegerConstant(1), 1, 1),
            (TokenKind::IntegerConstant(2), 1, 3),
            (TokenKind::IntegerConstant(3), 1, 5),
            (float(1, 2, 1), 1, 7),
            (float(2, 3, 1), 1, 11),
        ]
    );
}

#[test]
fn scan_brackets() {
    assert_eq!(
        kinds_at("()[]{}"),
        vec![
            (TokenKind::LeftParen, 1, 1),
            (TokenKind::RightParen, 1, 2),
            (TokenKind::LeftSqBracket, 1, 3),
            (TokenKind::RightSqBracket, 1, 4),
            (TokenKind::LeftBrace, 1, 5),
            (TokenKind::RightBrace, 1, 6),
        ]
    );
}

#[test]
fn scan_arithmetic() {
    assert_eq!(
        kinds_at("+-*/"),
        vec![
            (TokenKind::Plus, 1, 1),
            (TokenKind::Minus, 1, 2),
            (TokenKind::Star, 1, 3),
            (TokenKind::Divide, 1, 4),
        ]
    );
}

#[test]
fn scan_punctuation() {
    assert_eq!(kinds_at(";,"), vec![(TokenKind::Semicolon, 1, 1), (TokenKind::Comma, 1, 2)]);
}

#[test]
fn scan_expression_tokens() {
    assert_eq!(
        kinds_at("1+1/2"),
        vec![
            (TokenKind::IntegerConstant(1), 1, 1),
            (TokenKind::Plus, 1, 2),
            (TokenKind::IntegerConstant(1), 1, 3),
            (TokenKind::Divide, 1, 4),
            (TokenKind::IntegerConstant(2), 1, 5),
        ]
    );
}

#[test]
fn scan_float_division() {
    assert_eq!(
        kinds_at("1.2/2"),
        vec![
            (float(1, 2, 1), 1, 1),
            (TokenKind::Divide, 1, 4),
            (TokenKind::IntegerConstant(2), 1, 5),
        ]
    );
}

#[test]
fn scan_dot_floats() {
    assert_eq!(
        kinds_at("0.+.0"),
        vec![(float(0, 0, 0), 1, 1), (TokenKind::Plus, 1, 3), (float(0, 0, 1), 1, 4)]
    );
}

#[test]
fn scan_relops_single() {
    assert_eq!(kinds_at("="), vec![(TokenKind::Relop(RelopKind::Assign), 1, 1)]);
    assert_eq!(kinds_at("=="), vec![(TokenKind::Relop(RelopKind::Eq), 1, 1)]);
    assert_eq!(kinds_at("<"), vec![(TokenKind::Relop(RelopKind::Lt), 1, 1)]);
    assert_eq!(kinds_at("<="), vec![(TokenKind::Relop(RelopKind::Le), 1, 1)]);
    assert_eq!(kinds_at(">"), vec![(TokenKind::Relop(RelopKind::Gt), 1, 1)]);
    assert_eq!(kinds_at(">="), vec![(TokenKind::Relop(RelopKind::Ge), 1, 1)]);
    assert_eq!(kinds_at("!"), vec![(TokenKind::Not, 1, 1)]);
    assert_eq!(kinds_at("!="), vec![(TokenKind::Relop(RelopKind::Neq), 1, 1)]);
}

#[test]
fn scan_maximal_munch_relops() {
    assert_eq!(
        kinds_at("!==<>==<=>="),
        vec![
            (TokenKind::Relop(RelopKind::Neq), 1, 1),
            (TokenKind::Relop(RelopKind::Assign), 1, 3),
            (TokenKind::Relop(RelopKind::Lt), 1, 4),
            (TokenKind::Relop(RelopKind::Ge), 1, 5),
            (TokenKind::Relop(RelopKind::Assign), 1, 7),
            (TokenKind::Relop(RelopKind::Le), 1, 8),
            (TokenKind::Relop(RelopKind::Ge), 1, 10),
        ]
    );
}

#[test]
fn scan_relops_between_numbers() {
    assert_eq!(
        kinds_at("1>=2=2"),
        vec![
            (TokenKind::IntegerConstant(1), 1, 1),
            (TokenKind::Relop(RelopKind::Ge), 1, 2),
            (TokenKind::IntegerConstant(2), 1, 4),
            (TokenKind::Relop(RelopKind::Assign), 1, 5),
            (TokenKind::IntegerConstant(2), 1, 6),
        ]
    );
}

#[test]
fn lone_dot_is_an_error() {
    assert_eq!(
        scan_str(".").unwrap_err(),
        Error { pos: Position { line: 1, col: 1 }, error_kind: ErrorKind::ExpectDigit }
    );
}

#[test]
fn dot_before_space_is_an_error() {
    assert_eq!(
        scan_str(". 1").unwrap_err(),
        Error { pos: Position { line: 1, col: 1 }, error_kind: ErrorKind::ExpectDigit }
    );
}

#[test]
fn keywords_are_not_interned() {
    let out = scan_str("int double void if else while for do").unwrap();
    let kinds: Vec<TokenKind> = out.tokens.iter().map(|t| t.kind).collect();
    assert_eq!(
        kinds,
        vec![
            TokenKind::Qualifier(QualifierKind::Int),
            TokenKind::Qualifier(QualifierKind::Double),
            TokenKind::Qualifier(QualifierKind::Void),
            TokenKind::If,
            TokenKind::Else,
            TokenKind::While,
            TokenKind::For,
            TokenKind::Do,
        ]
    );
    assert!(out.id_table.is_empty());
    assert!(out.text.is_empty());
}

#[test]
fn repeated_spelling_reuses_its_index() {
    let out = scan_str("ab cd ab cd ab").unwrap();
    let kinds: Vec<TokenKind> = out.tokens.iter().map(|t| t.kind).collect();
    assert_eq!(
        kinds,
        vec![
            TokenKind::Id(0),
            TokenKind::Id(1),
            TokenKind::Id(0),
            TokenKind::Id(1),
            TokenKind::Id(0),
        ]
    );
    assert_eq!(
        out.id_table,
        vec![
            Identifier { text_begin: 0, text_len: 2 },
            Identifier { text_begin: 2, text_len: 2 },
        ]
    );
    assert_eq!(out.text, b"abcd".to_vec());
}

#[test]
fn identifier_table_entries_in_first_seen_order() {
    let out = scan_str("x1 = yy + x1;").unwrap();
    assert_eq!(out.id_table.len(), 2);
    assert_eq!(out.text, b"x1yy".to_vec());
    assert_eq!(out.tokens[0].kind, TokenKind::Id(0));
    assert_eq!(out.tokens[2].kind, TokenKind::Id(1));
    assert_eq!(out.tokens[4].kind, TokenKind::Id(0));
}

#[test]
fn non_ascii_identifiers_are_interned_as_utf8() {
    let out = scan_str("héllo héllo").unwrap();
    assert_eq!(
        out.tokens.iter().map(|t| t.kind).collect::<Vec<_>>(),
        vec![TokenKind::Id(0), TokenKind::Id(0)]
    );
    assert_eq!(out.id_table, vec![Identifier { text_begin: 0, text_len: 6 }]);
    assert_eq!(out.text, "héllo".as_bytes().to_vec());
    // The second occurrence starts at column 7, counted in characters.
    assert_eq!(out.tokens[1].pos, Position { line: 1, col: 7 });
}

#[test]
fn punctuation_starts_its_own_spelling() {
    // A character that is ASCII punctuation but no operator of the language
    // begins an identifier run of its own.
    let out = scan_str("# #").unwrap();
    assert_eq!(
        out.tokens.iter().map(|t| t.kind).collect::<Vec<_>>(),
        vec![TokenKind::Id(0), TokenKind::Id(0)]
    );
    assert_eq!(out.text, b"#".to_vec());
}

#[test]
fn underscores_continue_identifiers() {
    let out = scan_str("a_b a_b c").unwrap();
    assert_eq!(
        out.tokens.iter().map(|t| t.kind).collect::<Vec<_>>(),
        vec![TokenKind::Id(0), TokenKind::Id(0), TokenKind::Id(1)]
    );
    assert_eq!(out.text, b"a_bc".to_vec());
}

#[test]
fn integer_accumulates_with_wraparound() {
    // 4294967296 == 2^32 wraps to 0; 4294967297 wraps to 1.
    let out = scan_str("4294967296 4294967297").unwrap();
    assert_eq!(out.tokens[0].kind, TokenKind::IntegerConstant(0));
    assert_eq!(out.tokens[1].kind, TokenKind::IntegerConstant(1));
}

#[test]
fn leading_zeros_fold_into_one_constant() {
    // A digit sequence is one literal, leading zeros included.
    let out = scan_str("007").unwrap();
    assert_eq!(
        out.tokens.iter().map(|t| t.kind).collect::<Vec<_>>(),
        vec![TokenKind::IntegerConstant(7)]
    );
    let out = scan_str("01").unwrap();
    assert_eq!(
        out.tokens.iter().map(|t| t.kind).collect::<Vec<_>>(),
        vec![TokenKind::IntegerConstant(1)]
    );
    let out = scan_str("01.5").unwrap();
    assert_eq!(out.tokens.len(), 1);
}

#[test]
fn token_of_output_struct_is_plain_data() {
    let out = scan_str("1").unwrap();
    assert_eq!(
        out.tokens,
        vec![Token { kind: TokenKind::IntegerConstant(1), pos: Position { line: 1, col: 1 } }]
    );
}
