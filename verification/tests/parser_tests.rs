use minic::ast::{
    AtomExpression, BinaryOperator, BlockItem, Declaration, DeclarationSpecifier,
    DirectDeclaratorModifier, Expression, ExternalDeclaration, ForInitialization,
    InitDeclarator, IterationStatement, JumpStatement, Pointer, PostfixExpressionPostfix,
    SimpleDirectDeclarator, Statement, TypeSpecifier, UnaryOperator,
};
use minic::error::{Error, ErrorKind, Expected};
use minic::lexer::scan;
use minic::parser::{
    parse, parse_compound_statement, parse_expression, parse_statement, parse_translation_unit,
};
use minic::preprocess::preprocess;
use minic::token::{Position, RelopKind, Token, TokenKind};

fn str_to_tokens(s: &str) -> Vec<Token> {
    let src: Vec<char> = s.chars().collect();
    let preprocessed = preprocess(&src).unwrap();
    scan(&preprocessed).unwrap().tokens
}

#[test]
fn test() {
    let tokens = str_to_tokens("");
    let mut i: usize = 0;
    parse_translation_unit(&mut i, &tokens).unwrap();
}

#[test]
fn empty_source_parses_to_empty_unit() {
    let tu = parse(&str_to_tokens("")).unwrap();
    assert!(tu.external_declarations.is_empty());
}

fn single_declaration(s: &str) -> Declaration {
    let mut tu = parse(&str_to_tokens(s)).unwrap();
    assert_eq!(tu.external_declarations.len(), 1);
    match tu.external_declarations.pop().unwrap() {
        ExternalDeclaration::Declaration(d) => d,
        ExternalDeclaration::FunctionDeclaration(_) => panic!("expected a declaration"),
    }
}

#[test]
fn array_declaration_shape() {
    // `int a[3];`: pointer depth 0, direct declarator identifier `a`, one
    // Array(3) modifier.
    let d = single_declaration("int a[3];");
    assert!(matches!(
        d.declaration_specifier,
        DeclarationSpecifier::TypeSpecifier(TypeSpecifier::Int)
    ));
    let InitDeclarator { declarator, initializer } = &d.init_declarator_list.0[0];
    assert_eq!(d.init_declarator_list.0.len(), 1);
    assert!(initializer.is_none());
    assert_eq!(declarator.pointer, Pointer(0));
    assert!(matches!(declarator.direct.simple_declarator, SimpleDirectDeclarator::Identifier(0)));
    assert_eq!(declarator.direct.modifiers.len(), 1);
    assert!(matches!(declarator.direct.modifiers[0], DirectDeclaratorModifier::Array(3)));
}

#[test]
fn pointer_array_binds_like_c() {
    // `int *a[3];` reads as "array of pointer": depth 1 on the declarator,
    // Array on the direct declarator.
    let d = single_declaration("int *a[3];");
    let declarator = &d.init_declarator_list.0[0].declarator;
    assert_eq!(declarator.pointer, Pointer(1));
    assert!(matches!(declarator.direct.modifiers[0], DirectDeclaratorModifier::Array(3)));
}

#[test]
fn parenthesized_declarator_nests() {
    // `int (*a)[3];` is "pointer to array" via the nested declarator.
    let d = single_declaration("int (*a)[3];");
    let declarator = &d.init_declarator_list.0[0].declarator;
    assert_eq!(declarator.pointer, Pointer(0));
    match &declarator.direct.simple_declarator {
        SimpleDirectDeclarator::Declarator(inner) => {
            assert_eq!(inner.pointer, Pointer(1));
            assert!(matches!(
                inner.direct.simple_declarator,
                SimpleDirectDeclarator::Identifier(0)
            ));
        }
        SimpleDirectDeclarator::Identifier(_) => panic!("expected a nested declarator"),
    }
    assert!(matches!(declarator.direct.modifiers[0], DirectDeclaratorModifier::Array(3)));
}

#[test]
fn multiple_init_declarators() {
    let d = single_declaration("int a, b, c = 1;");
    assert_eq!(d.init_declarator_list.0.len(), 3);
    assert!(d.init_declarator_list.0[0].initializer.is_none());
    assert!(d.init_declarator_list.0[1].initializer.is_none());
    assert!(d.init_declarator_list.0[2].initializer.is_some());
}

#[test]
fn initializer_is_a_full_expression() {
    // An initializer is a whole expression, comma operator included, so
    // `b = 1, c` initializes `b` with the sequence `(1, c)`.
    let d = single_declaration("int a, b = 1, c;");
    assert_eq!(d.init_declarator_list.0.len(), 2);
    match &d.init_declarator_list.0[1].initializer {
        Some(minic::ast::Initializer::Expression(Expression::Binary(b))) => {
            assert_eq!(b.operator, BinaryOperator::Comma);
        }
        other => panic!("expected a comma-expression initializer, got {other:?}"),
    }
}

fn function_body(s: &str) -> Vec<BlockItem> {
    let mut tu = parse(&str_to_tokens(s)).unwrap();
    assert_eq!(tu.external_declarations.len(), 1);
    match tu.external_declarations.pop().unwrap() {
        ExternalDeclaration::FunctionDeclaration(f) => f.compound_statement.0,
        ExternalDeclaration::Declaration(_) => panic!("expected a function definition"),
    }
}

#[test]
fn function_definition_with_parameters() {
    let mut tu = parse(&str_to_tokens("int add(int a, int b) { c = a + b; }")).unwrap();
    let f = match tu.external_declarations.pop().unwrap() {
        ExternalDeclaration::FunctionDeclaration(f) => f,
        _ => panic!("expected a function definition"),
    };
    match &f.declarator.direct.modifiers[0] {
        DirectDeclaratorModifier::Function(params) => assert_eq!(params.len(), 2),
        _ => panic!("expected a function modifier"),
    }
    assert_eq!(f.compound_statement.0.len(), 1);
    match &f.compound_statement.0[0] {
        BlockItem::Statement(Statement::Expression(Some(Expression::Assignment(_)))) => {}
        _ => panic!("expected an assignment statement"),
    }
}

#[test]
fn precedence_multiplication_binds_tighter() {
    // x = 1 + 2 * 3 parses as x = (1 + (2 * 3)).
    let body = function_body("void f(void v) { x = 1 + 2 * 3; }");
    let expr = match &body[0] {
        BlockItem::Statement(Statement::Expression(Some(e))) => e,
        _ => panic!("expected an expression statement"),
    };
    match expr {
        Expression::Assignment(a) => match a.right.as_ref() {
            Expression::Binary(add) => {
                assert_eq!(add.operator, BinaryOperator::Add);
                assert!(matches!(
                    add.left.as_ref(),
                    Expression::Atom(AtomExpression::Integer(1))
                ));
                match add.right.as_ref() {
                    Expression::Binary(mul) => {
                        assert_eq!(mul.operator, BinaryOperator::Multiply)
                    }
                    _ => panic!("expected a product"),
                }
            }
            _ => panic!("expected a sum"),
        },
        _ => panic!("expected an assignment"),
    }
}

#[test]
fn left_associative_subtraction() {
    // 1 - 2 - 3 parses as (1 - 2) - 3.
    let body = function_body("void f(void v) { 1 - 2 - 3; }");
    let expr = match &body[0] {
        BlockItem::Statement(Statement::Expression(Some(e))) => e,
        _ => panic!("expected an expression statement"),
    };
    match expr {
        Expression::Binary(outer) => {
            assert_eq!(outer.operator, BinaryOperator::Minus);
            assert!(matches!(
                outer.right.as_ref(),
                Expression::Atom(AtomExpression::Integer(3))
            ));
            match outer.left.as_ref() {
                Expression::Binary(inner) => assert_eq!(inner.operator, BinaryOperator::Minus),
                _ => panic!("expected a nested difference"),
            }
        }
        _ => panic!("expected a difference"),
    }
}

#[test]
fn assignment_is_right_associative() {
    let body = function_body("void f(void v) { a = b = 1; }");
    match &body[0] {
        BlockItem::Statement(Statement::Expression(Some(Expression::Assignment(a)))) => {
            assert!(matches!(a.right.as_ref(), Expression::Assignment(_)));
        }
        _ => panic!("expected a chained assignment"),
    }
}

#[test]
fn unary_chain_binds_one_operand() {
    let body = function_body("void f(void v) { -!x; }");
    match &body[0] {
        BlockItem::Statement(Statement::Expression(Some(Expression::Unary(u)))) => {
            assert_eq!(u.operator, UnaryOperator::Negative);
            match u.operand.as_ref() {
                Expression::Unary(inner) => {
                    assert_eq!(inner.operator, UnaryOperator::LogicalNot)
                }
                _ => panic!("expected a nested unary expression"),
            }
        }
        _ => panic!("expected a unary expression"),
    }
}

fn tok(kind: TokenKind, col: usize) -> Token {
    Token { kind, pos: Position { line: 1, col } }
}

#[test]
fn logical_and_bitwise_tiers_order() {
    // a || b && c | d & e == f, built token by token: the parse nests as
    // a || (b && (c | (d & (e == f)))).
    let tokens = vec![
        tok(TokenKind::Id(0), 1),
        tok(TokenKind::Or, 2),
        tok(TokenKind::Id(1), 3),
        tok(TokenKind::And, 4),
        tok(TokenKind::Id(2), 5),
        tok(TokenKind::BitOr, 6),
        tok(TokenKind::Id(3), 7),
        tok(TokenKind::BitAnd, 8),
        tok(TokenKind::Id(4), 9),
        tok(TokenKind::Relop(RelopKind::Eq), 10),
        tok(TokenKind::Id(5), 11),
    ];
    let mut i: usize = 0;
    let e = parse_expression(&mut i, &tokens).unwrap();
    assert_eq!(i, tokens.len());
    let or = match e {
        Expression::Binary(b) => {
            assert_eq!(b.operator, BinaryOperator::LogicalOr);
            b
        }
        _ => panic!("expected a logical or"),
    };
    let and = match *or.right {
        Expression::Binary(b) => {
            assert_eq!(b.operator, BinaryOperator::LogicalAnd);
            b
        }
        _ => panic!("expected a logical and"),
    };
    let bitor = match *and.right {
        Expression::Binary(b) => {
            assert_eq!(b.operator, BinaryOperator::Or);
            b
        }
        _ => panic!("expected a bitwise or"),
    };
    let bitand = match *bitor.right {
        Expression::Binary(b) => {
            assert_eq!(b.operator, BinaryOperator::And);
            b
        }
        _ => panic!("expected a bitwise and"),
    };
    match *bitand.right {
        Expression::Binary(b) => assert_eq!(b.operator, BinaryOperator::Eq),
        _ => panic!("expected an equality"),
    }
}

#[test]
fn bitwise_not_and_address_prefixes() {
    // ~&x, built token by token.
    let tokens = vec![
        tok(TokenKind::BitNot, 1),
        tok(TokenKind::BitAnd, 2),
        tok(TokenKind::Id(0), 3),
    ];
    let mut i: usize = 0;
    let e = parse_expression(&mut i, &tokens).unwrap();
    match e {
        Expression::Unary(u) => {
            assert_eq!(u.operator, UnaryOperator::Not);
            match *u.operand {
                Expression::Unary(inner) => {
                    assert_eq!(inner.operator, UnaryOperator::Address)
                }
                _ => panic!("expected a nested unary expression"),
            }
        }
        _ => panic!("expected a unary expression"),
    }
}

#[test]
fn postfix_applies_left_to_right() {
    // a[0](x)[1] is repeated postfix application.
    let body = function_body("void f(void v) { a[0](x)[1]; }");
    match &body[0] {
        BlockItem::Statement(Statement::Expression(Some(Expression::Postfix(outer)))) => {
            assert!(matches!(outer.postfix, PostfixExpressionPostfix::Subscript(_)));
            match outer.operand.as_ref() {
                Expression::Postfix(mid) => match &mid.postfix {
                    PostfixExpressionPostfix::Call(args) => assert_eq!(args.len(), 1),
                    _ => panic!("expected a call"),
                },
                _ => panic!("expected a nested postfix expression"),
            }
        }
        _ => panic!("expected a postfix expression"),
    }
}

#[test]
fn empty_call_has_no_arguments() {
    let body = function_body("void f(void v) { g(); }");
    match &body[0] {
        BlockItem::Statement(Statement::Expression(Some(Expression::Postfix(p)))) => {
            match &p.postfix {
                PostfixExpressionPostfix::Call(args) => assert!(args.is_empty()),
                _ => panic!("expected a call"),
            }
        }
        _ => panic!("expected a postfix expression"),
    }
}

#[test]
fn statements_dispatch() {
    let body = function_body(
        "void f(void v) { { ; } if (a) b = 1; else b = 2; while (a < 10) a = a + 1; \
         do a = a - 1; while (a) for (int i = 0; i < 3; i = i + 1) { continue; } break; }",
    );
    let shape: Vec<&str> = body
        .iter()
        .map(|b| match b {
            BlockItem::Declaration(_) => "decl",
            BlockItem::Statement(Statement::Compound(_)) => "compound",
            BlockItem::Statement(Statement::Expression(_)) => "expr",
            BlockItem::Statement(Statement::Selection(_)) => "if",
            BlockItem::Statement(Statement::Iteration(IterationStatement::While(_))) => "while",
            BlockItem::Statement(Statement::Iteration(IterationStatement::Do(_))) => "do",
            BlockItem::Statement(Statement::Iteration(IterationStatement::For(_))) => "for",
            BlockItem::Statement(Statement::Jump(JumpStatement::Continue)) => "continue",
            BlockItem::Statement(Statement::Jump(JumpStatement::Break)) => "break",
            BlockItem::Statement(Statement::Jump(JumpStatement::Return(_))) => "return",
        })
        .collect();
    // `break` is no keyword of the scanner's fixed table, so the last item
    // scans as an identifier expression statement.
    assert_eq!(shape, vec!["compound", "if", "while", "do", "for", "expr"]);
    assert!(matches!(body[0], BlockItem::Statement(Statement::Compound(_))));
    match &body[1] {
        BlockItem::Statement(Statement::Selection(s)) => assert!(s.alternative.is_some()),
        _ => panic!("expected a selection statement"),
    }
    assert!(matches!(
        body[2],
        BlockItem::Statement(Statement::Iteration(IterationStatement::While(_)))
    ));
    assert!(matches!(
        body[3],
        BlockItem::Statement(Statement::Iteration(IterationStatement::Do(_)))
    ));
    match &body[4] {
        BlockItem::Statement(Statement::Iteration(IterationStatement::For(f))) => {
            assert!(matches!(f.initialization, ForInitialization::Declaration(_)));
            assert!(f.condition.is_some());
            assert!(f.update.is_some());
        }
        _ => panic!("expected a for statement"),
    }
}

#[test]
fn jump_statements_from_tokens() {
    // continue, break and return tokens reach the parser when the token
    // sequence is built directly.
    let tokens = vec![
        tok(TokenKind::LeftBrace, 1),
        tok(TokenKind::Continue, 2),
        tok(TokenKind::Semicolon, 3),
        tok(TokenKind::Break, 4),
        tok(TokenKind::Semicolon, 5),
        tok(TokenKind::Return, 6),
        tok(TokenKind::Semicolon, 7),
        tok(TokenKind::Return, 8),
        tok(TokenKind::IntegerConstant(1), 9),
        tok(TokenKind::Semicolon, 10),
        tok(TokenKind::RightBrace, 11),
    ];
    let mut i: usize = 0;
    let c = parse_compound_statement(&mut i, &tokens).unwrap();
    assert_eq!(i, tokens.len());
    assert!(matches!(c.0[0], BlockItem::Statement(Statement::Jump(JumpStatement::Continue))));
    assert!(matches!(c.0[1], BlockItem::Statement(Statement::Jump(JumpStatement::Break))));
    assert!(matches!(
        c.0[2],
        BlockItem::Statement(Statement::Jump(JumpStatement::Return(None)))
    ));
    assert!(matches!(
        c.0[3],
        BlockItem::Statement(Statement::Jump(JumpStatement::Return(Some(_))))
    ));
}

#[test]
fn comma_operator_sequences() {
    let body = function_body("void f(void v) { a, b; }");
    match &body[0] {
        BlockItem::Statement(Statement::Expression(Some(Expression::Binary(b)))) => {
            assert_eq!(b.operator, BinaryOperator::Comma);
        }
        _ => panic!("expected a comma expression"),
    }
}

#[test]
fn missing_closing_brace_blames_the_opening_one() {
    // The opening `{` of the unterminated compound statement is at column 16.
    let tokens = str_to_tokens("void f(void v) {");
    let err = parse(&tokens).unwrap_err();
    assert_eq!(
        err,
        Error {
            pos: Position { line: 1, col: 16 },
            error_kind: ErrorKind::UnmatchedParenthesis(Position { line: 1, col: 16 }),
        }
    );
}

#[test]
fn compound_statement_alone_blames_its_opening_brace() {
    let tokens = str_to_tokens("{ a;");
    let mut i: usize = 0;
    let err = parse_compound_statement(&mut i, &tokens).unwrap_err();
    assert_eq!(
        err,
        Error {
            pos: Position { line: 1, col: 1 },
            error_kind: ErrorKind::UnmatchedParenthesis(Position { line: 1, col: 1 }),
        }
    );
}

#[test]
fn unmatched_paren_in_expression() {
    let tokens = str_to_tokens("void f(void v) { a = (1 + 2; }");
    let err = parse(&tokens).unwrap_err();
    // The opening parenthesis of the expression is at column 22.
    assert_eq!(
        err.error_kind,
        ErrorKind::UnmatchedParenthesis(Position { line: 1, col: 22 })
    );
    assert_eq!(err.pos, Position { line: 1, col: 22 });
}

#[test]
fn error_expect_declaration_specifier() {
    let err = parse(&str_to_tokens("x")).unwrap_err();
    assert_eq!(err.error_kind, ErrorKind::ExpectDeclarationSpecifier);
    // Nothing was consumed, so the sentinel zero position is reported.
    assert_eq!(err.pos, Position { line: 0, col: 0 });
}

#[test]
fn error_expect_declarator() {
    let err = parse(&str_to_tokens("int")).unwrap_err();
    assert_eq!(err.error_kind, ErrorKind::ExpectDeclarator);
    assert_eq!(err.pos, Position { line: 1, col: 1 });
}

#[test]
fn error_expect_direct_declarator() {
    let err = parse(&str_to_tokens("int ;")).unwrap_err();
    assert_eq!(err.error_kind, ErrorKind::ExpectDirectDeclarator);
}

#[test]
fn error_expect_integer_constant() {
    let err = parse(&str_to_tokens("int a[x];")).unwrap_err();
    assert_eq!(err.error_kind, ErrorKind::ExpectIntegerConstant);
}

#[test]
fn error_expect_statement() {
    let tokens = str_to_tokens("");
    let mut i: usize = 0;
    let err = parse_statement(&mut i, &tokens).unwrap_err();
    assert_eq!(err.error_kind, ErrorKind::ExpectStatement);
}

#[test]
fn error_expect_compound_statement() {
    let tokens = str_to_tokens(";");
    let mut i: usize = 0;
    let err = parse_compound_statement(&mut i, &tokens).unwrap_err();
    assert_eq!(err.error_kind, ErrorKind::ExpectCompoundStatement);
}

#[test]
fn error_expect_expression() {
    let err = parse(&str_to_tokens("void f(void v) { = ; }")).unwrap_err();
    assert_eq!(err.error_kind, ErrorKind::ExpectExpression);
}

#[test]
fn error_expect_for_initialization() {
    let err = parse(&str_to_tokens("void f(void v) { for (")).unwrap_err();
    assert_eq!(err.error_kind, ErrorKind::ExpectForInitialization);
}

#[test]
fn error_expect_semicolon() {
    let err = parse(&str_to_tokens("void f(void v) { a }")).unwrap_err();
    assert_eq!(err.error_kind, ErrorKind::ExpectStr(Expected::Semicolon));
}

#[test]
fn error_expect_left_paren() {
    let err = parse(&str_to_tokens("void f(void v) { if a; }")).unwrap_err();
    assert_eq!(err.error_kind, ErrorKind::ExpectStr(Expected::LeftParen));
}

#[test]
fn error_expect_while_of_do() {
    let err = parse(&str_to_tokens("void f(void v) { do a; b; }")).unwrap_err();
    assert_eq!(err.error_kind, ErrorKind::ExpectStr(Expected::KwWhile));
}

#[test]
fn error_expect_semicolon_or_brace() {
    let err = parse(&str_to_tokens("int a")).unwrap_err();
    assert_eq!(err.error_kind, ErrorKind::ExpectStr(Expected::SemicolonOrLeftBrace));
}

#[test]
fn error_position_is_last_consumed_token() {
    // After consuming `int a [`, the subscript bound fails; the error points
    // at the last consumed token, the `[` at column 6.
    let err = parse(&str_to_tokens("int a[;")).unwrap_err();
    assert_eq!(err.error_kind, ErrorKind::ExpectIntegerConstant);
    assert_eq!(err.pos, Position { line: 1, col: 6 });
}

#[test]
fn comment_does_not_shift_error_position() {
    // The block comment is replaced by spaces, so the `[` keeps column 11.
    let err = parse(&str_to_tokens("int/*xx*/a[;")).unwrap_err();
    assert_eq!(err.pos, Position { line: 1, col: 11 });
}
