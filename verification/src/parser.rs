//! The recursive-descent parser: builds the abstract syntax tree from the
//! token sequence, addressed by a single cursor index with one token of
//! look-ahead and, at the assignment production, a save/restore of the
//! cursor. The first failure halts parsing; every failure carries the
//! position of the last consumed token (or the zero sentinel when nothing
//! was consumed yet), and an unmatched-delimiter failure carries the opening
//! delimiter's own position.

use vstd::prelude::*;
use crate::token::{Token, TokenKind, QualifierKind, Position};
use crate::error::{Error, ErrorKind, Expected};
use crate::ast::{
    TranslationUnit, ExternalDeclaration, FunctionDefinition, Declaration, InitDeclaratorList,
    DeclarationSpecifier, TypeSpecifier, InitDeclarator, Declarator, Pointer, DirectDeclarator,
    DirectDeclaratorModifier, SimpleDirectDeclarator, ParameterDeclaration, Initializer,
    Statement, CompoundStatement, BlockItem, SelectionStatement, IterationStatement,
    WhileStatement, DoStatement, ForStatement, ForInitialization, JumpStatement, Expression,
    AssignmentExpression, BinaryExpression, BinaryOperator, UnaryExpression, UnaryOperator,
    PostfixExpression, PostfixExpressionPostfix, AtomExpression,
};

verus! {

/// The position parser errors report: the last consumed token's, or the
/// zero sentinel when the cursor never moved.
pub open spec fn err_pos(tokens: Seq<Token>, i: int) -> Position {
    if i == 0 {
        Position { line: 0, col: 0 }
    } else {
        tokens[i - 1].pos
    }
}

/// Every unmatched-delimiter failure reports the opening delimiter's own
/// position, so the diagnostic points at the start of the unmatched
/// construct.
pub open spec fn delimiter_policy(e: Error) -> bool {
    match e.error_kind {
        ErrorKind::UnmatchedParenthesis(p) => e.pos == p,
        _ => true,
    }
}

/// The token a binary operator is written with.
pub open spec fn binop_token(op: BinaryOperator) -> TokenKind {
    match op {
        BinaryOperator::Add => TokenKind::Plus,
        BinaryOperator::Minus => TokenKind::Minus,
        BinaryOperator::Multiply => TokenKind::Star,
        BinaryOperator::DivideBy => TokenKind::Divide,
        BinaryOperator::LogicalAnd => TokenKind::And,
        BinaryOperator::LogicalOr => TokenKind::Or,
        BinaryOperator::And => TokenKind::BitAnd,
        BinaryOperator::Or => TokenKind::BitOr,
        BinaryOperator::Lt => TokenKind::Relop(crate::token::RelopKind::Lt),
        BinaryOperator::Gt => TokenKind::Relop(crate::token::RelopKind::Gt),
        BinaryOperator::Le => TokenKind::Relop(crate::token::RelopKind::Le),
        BinaryOperator::Ge => TokenKind::Relop(crate::token::RelopKind::Ge),
        BinaryOperator::Eq => TokenKind::Relop(crate::token::RelopKind::Eq),
        BinaryOperator::Neq => TokenKind::Relop(crate::token::RelopKind::Neq),
        BinaryOperator::Comma => TokenKind::Comma,
    }
}

/// The whole (comma-tier) expression `e` reads from the tokens `[lo, hi)`:
/// either an assignment-tier expression, or a left-associative comma fold
/// whose right operand is again assignment-tier. Each tier relation below
/// admits a same-tier node only on the left of its operator, so precedence
/// and left associativity are pinned; parentheses re-enter the whole grammar
/// at `primary_matches`.
pub open spec fn expr_matches(s: Seq<Token>, lo: int, hi: int, e: Expression) -> bool
    decreases hi - lo, 60int,
    when 0 <= lo <= hi <= s.len()
{
    ||| assign_matches(s, lo, hi, e)
    ||| (match e {
        Expression::Binary(b) => b.operator == BinaryOperator::Comma && (exists|m: int|
            #![trigger s[m]]
            lo < m && m < hi && s[m].kind == TokenKind::Comma && expr_matches(s, lo, m, *b.left)
                && assign_matches(s, m + 1, hi, *b.right)),
        _ => false,
    })
}

/// Assignment tier: right-associative `=` over a unary-tier left side, or
/// the logical-or ladder.
pub open spec fn assign_matches(s: Seq<Token>, lo: int, hi: int, e: Expression) -> bool
    decreases hi - lo, 59int,
    when 0 <= lo <= hi <= s.len()
{
    ||| lor_matches(s, lo, hi, e)
    ||| (match e {
        Expression::Assignment(a) => exists|m: int|
            #![trigger s[m]]
            lo < m && m < hi && s[m].kind == TokenKind::Relop(crate::token::RelopKind::Assign)
                && unary_matches(s, lo, m, *a.left) && assign_matches(s, m + 1, hi, *a.right),
        _ => false,
    })
}

/// Logical-or tier.
pub open spec fn lor_matches(s: Seq<Token>, lo: int, hi: int, e: Expression) -> bool
    decreases hi - lo, 58int,
    when 0 <= lo <= hi <= s.len()
{
    ||| land_matches(s, lo, hi, e)
    ||| (match e {
        Expression::Binary(b) => b.operator == BinaryOperator::LogicalOr && (exists|m: int|
            #![trigger s[m]]
            lo < m && m < hi && s[m].kind == TokenKind::Or && lor_matches(s, lo, m, *b.left)
                && land_matches(s, m + 1, hi, *b.right)),
        _ => false,
    })
}

/// Logical-and tier.
pub open spec fn land_matches(s: Seq<Token>, lo: int, hi: int, e: Expression) -> bool
    decreases hi - lo, 57int,
    when 0 <= lo <= hi <= s.len()
{
    ||| bor_matches(s, lo, hi, e)
    ||| (match e {
        Expression::Binary(b) => b.operator == BinaryOperator::LogicalAnd && (exists|m: int|
            #![trigger s[m]]
            lo < m && m < hi && s[m].kind == TokenKind::And && land_matches(s, lo, m, *b.left)
                && bor_matches(s, m + 1, hi, *b.right)),
        _ => false,
    })
}

/// Bitwise-or tier.
pub open spec fn bor_matches(s: Seq<Token>, lo: int, hi: int, e: Expression) -> bool
    decreases hi - lo, 56int,
    when 0 <= lo <= hi <= s.len()
{
    ||| band_matches(s, lo, hi, e)
    ||| (match e {
        Expression::Binary(b) => b.operator == BinaryOperator::Or && (exists|m: int|
            #![trigger s[m]]
            lo < m && m < hi && s[m].kind == TokenKind::BitOr && bor_matches(s, lo, m, *b.left)
                && band_matches(s, m + 1, hi, *b.right)),
        _ => false,
    })
}

/// Bitwise-and tier.
pub open spec fn band_matches(s: Seq<Token>, lo: int, hi: int, e: Expression) -> bool
    decreases hi - lo, 55int,
    when 0 <= lo <= hi <= s.len()
{
    ||| eq_matches(s, lo, hi, e)
    ||| (match e {
        Expression::Binary(b) => b.operator == BinaryOperator::And && (exists|m: int|
            #![trigger s[m]]
            lo < m && m < hi && s[m].kind == TokenKind::BitAnd && band_matches(s, lo, m, *b.left)
                && eq_matches(s, m + 1, hi, *b.right)),
        _ => false,
    })
}

/// Equality tier.
pub open spec fn eq_matches(s: Seq<Token>, lo: int, hi: int, e: Expression) -> bool
    decreases hi - lo, 54int,
    when 0 <= lo <= hi <= s.len()
{
    ||| rel_matches(s, lo, hi, e)
    ||| (match e {
        Expression::Binary(b) => (b.operator == BinaryOperator::Eq || b.operator
            == BinaryOperator::Neq) && (exists|m: int|
            #![trigger s[m]]
            lo < m && m < hi && s[m].kind == binop_token(b.operator) && eq_matches(
                s,
                lo,
                m,
                *b.left,
            ) && rel_matches(s, m + 1, hi, *b.right)),
        _ => false,
    })
}

/// Relational tier.
pub open spec fn rel_matches(s: Seq<Token>, lo: int, hi: int, e: Expression) -> bool
    decreases hi - lo, 53int,
    when 0 <= lo <= hi <= s.len()
{
    ||| add_matches(s, lo, hi, e)
    ||| (match e {
        Expression::Binary(b) => (b.operator == BinaryOperator::Le || b.operator
            == BinaryOperator::Lt || b.operator == BinaryOperator::Ge || b.operator
            == BinaryOperator::Gt) && (exists|m: int|
            #![trigger s[m]]
            lo < m && m < hi && s[m].kind == binop_token(b.operator) && rel_matches(
                s,
                lo,
                m,
                *b.left,
            ) && add_matches(s, m + 1, hi, *b.right)),
        _ => false,
    })
}

/// Additive tier.
pub open spec fn add_matches(s: Seq<Token>, lo: int, hi: int, e: Expression) -> bool
    decreases hi - lo, 52int,
    when 0 <= lo <= hi <= s.len()
{
    ||| mul_matches(s, lo, hi, e)
    ||| (match e {
        Expression::Binary(b) => (b.operator == BinaryOperator::Add || b.operator
            == BinaryOperator::Minus) && (exists|m: int|
            #![trigger s[m]]
            lo < m && m < hi && s[m].kind == binop_token(b.operator) && add_matches(
                s,
                lo,
                m,
                *b.left,
            ) && mul_matches(s, m + 1, hi, *b.right)),
        _ => false,
    })
}

/// Multiplicative tier.
pub open spec fn mul_matches(s: Seq<Token>, lo: int, hi: int, e: Expression) -> bool
    decreases hi - lo, 51int,
    when 0 <= lo <= hi <= s.len()
{
    ||| unary_matches(s, lo, hi, e)
    ||| (match e {
        Expression::Binary(b) => (b.operator == BinaryOperator::Multiply || b.operator
            == BinaryOperator::DivideBy) && (exists|m: int|
            #![trigger s[m]]
            lo < m && m < hi && s[m].kind == binop_token(b.operator) && mul_matches(
                s,
                lo,
                m,
                *b.left,
            ) && unary_matches(s, m + 1, hi, *b.right)),
        _ => false,
    })
}

/// Unary tier: a chain of prefixes binding one postfix expression.
pub open spec fn unary_matches(s: Seq<Token>, lo: int, hi: int, e: Expression) -> bool
    decreases hi - lo, 50int,
    when 0 <= lo <= hi <= s.len()
{
    ||| postfix_matches(s, lo, hi, e)
    ||| (lo < hi && (match e {
        Expression::Unary(u) => spec_unary_operator(s[lo].kind) == Some(u.operator)
            && unary_matches(s, lo + 1, hi, *u.operand),
        _ => false,
    }))
}

/// Postfix tier: subscripts and calls applied to a growing left operand.
pub open spec fn postfix_matches(s: Seq<Token>, lo: int, hi: int, e: Expression) -> bool
    decreases hi - lo, 49int,
    when 0 <= lo <= hi <= s.len()
{
    ||| primary_matches(s, lo, hi, e)
    ||| (match e {
        Expression::Postfix(p) => match p.postfix {
            PostfixExpressionPostfix::Subscript(sub) => exists|m: int|
                #![trigger s[m]]
                lo < m && m + 1 < hi && s[m].kind == TokenKind::LeftSqBracket && s[hi - 1].kind
                    == TokenKind::RightSqBracket && postfix_matches(s, lo, m, *p.operand)
                    && expr_matches(s, m + 1, hi - 1, *sub),
            PostfixExpressionPostfix::Call(args) => exists|m: int|
                #![trigger s[m]]
                lo < m && m + 1 < hi && s[m].kind == TokenKind::LeftParen && s[hi - 1].kind
                    == TokenKind::RightParen && postfix_matches(s, lo, m, *p.operand) && (if args@.len()
                    == 0 {
                    hi - 1 == m + 1
                } else {
                    args_match(s, m + 1, hi - 1, args@)
                }),
        },
        _ => false,
    })
}

/// Primary tier: a single literal or identifier token, or a parenthesized
/// whole expression.
pub open spec fn primary_matches(s: Seq<Token>, lo: int, hi: int, e: Expression) -> bool
    decreases hi - lo, 48int,
    when 0 <= lo <= hi <= s.len()
{
    lo < hi && ((lo + 2 < hi && s[lo].kind == TokenKind::LeftParen && s[hi - 1].kind
        == TokenKind::RightParen && expr_matches(s, lo + 1, hi - 1, e)) || (match e {
        Expression::Atom(a) => match a {
            AtomExpression::Identifier(x) => hi == lo + 1 && s[lo].kind == TokenKind::Id(x),
            AtomExpression::Integer(n) => hi == lo + 1 && s[lo].kind == TokenKind::IntegerConstant(
                n,
            ),
            AtomExpression::Floating(f) => hi == lo + 1 && s[lo].kind
                == TokenKind::FloatingConstant(f),
        },
        _ => false,
    }))
}

/// The non-empty comma-separated argument list `args` reads from `[lo, hi)`,
/// each argument an assignment-tier expression.
pub open spec fn args_match(s: Seq<Token>, lo: int, hi: int, args: Seq<Expression>) -> bool
    decreases hi - lo, 65int,
    when 0 <= lo <= hi <= s.len()
{
    if args.len() == 0 {
        false
    } else if args.len() == 1 {
        assign_matches(s, lo, hi, args[0])
    } else {
        exists|m: int|
            #![trigger s[m]]
            lo <= m && m < hi && s[m].kind == TokenKind::Comma && args_match(
                s,
                lo,
                m,
                args.drop_last(),
            ) && assign_matches(s, m + 1, hi, args.last())
    }
}

/// The initializer `init` reads from `[lo, hi)`: an expression, or a
/// brace-enclosed non-empty comma-separated list of initializers.
pub open spec fn initializer_matches(s: Seq<Token>, lo: int, hi: int, init: Initializer) -> bool
    decreases hi - lo, 0int,
    when 0 <= lo <= hi <= s.len()
{
    match init {
        Initializer::Expression(e) => expr_matches(s, lo, hi, e),
        Initializer::List(v) => lo + 1 < hi && s[lo].kind == TokenKind::LeftBrace && s[hi - 1].kind
            == TokenKind::RightBrace && inits_match(s, lo + 1, hi - 1, v@),
    }
}

/// The non-empty comma-separated initializer list `inits` reads from
/// `[lo, hi)`.
pub open spec fn inits_match(s: Seq<Token>, lo: int, hi: int, inits: Seq<Initializer>) -> bool
    decreases hi - lo, 1int,
    when 0 <= lo <= hi <= s.len()
{
    if inits.len() == 0 {
        false
    } else if inits.len() == 1 {
        initializer_matches(s, lo, hi, inits[0])
    } else {
        exists|m: int|
            #![trigger s[m]]
            lo <= m && m < hi && s[m].kind == TokenKind::Comma && inits_match(
                s,
                lo,
                m,
                inits.drop_last(),
            ) && initializer_matches(s, m + 1, hi, inits.last())
    }
}

/// The direct declarator `dd` reads from `[lo, hi)`: an identifier or a
/// parenthesized nested declarator, then its trailing modifiers.
pub open spec fn direct_matches(s: Seq<Token>, lo: int, hi: int, dd: DirectDeclarator) -> bool
    decreases hi - lo, 0int,
    when 0 <= lo <= hi <= s.len()
{
    exists|m: int|
        #![trigger s[m]]
        lo < m && m <= hi && (match dd.simple_declarator {
            SimpleDirectDeclarator::Identifier(x) => m == lo + 1 && s[lo].kind == TokenKind::Id(x),
            SimpleDirectDeclarator::Declarator(inner) => lo + 1 < m - 1 && s[lo].kind
                == TokenKind::LeftParen && s[m - 1].kind == TokenKind::RightParen
                && declarator_matches(s, lo + 1, m - 1, *inner),
        }) && modifiers_match(s, m, hi, dd.modifiers@)
}

/// The declarator `d` reads from `[lo, hi)`: its pointer depth of `*` tokens
/// and then its direct declarator.
pub open spec fn declarator_matches(s: Seq<Token>, lo: int, hi: int, d: Declarator) -> bool
    decreases hi - lo, 1int,
    when 0 <= lo <= hi <= s.len()
{
    let k = d.pointer.0 as int;
    &&& lo + k <= hi
    &&& forall|j: int| lo <= j < lo + k ==> s[j].kind == TokenKind::Star
    &&& direct_matches(s, lo + k, hi, d.direct)
}

/// One declarator modifier reads from `[lo, hi)`: `[` bound `]` or
/// `(` parameter list `)`.
pub open spec fn modifier_matches(s: Seq<Token>, lo: int, hi: int, m: DirectDeclaratorModifier) -> bool
    decreases hi - lo, 2int,
    when 0 <= lo <= hi <= s.len()
{
    match m {
        DirectDeclaratorModifier::Array(n) => hi == lo + 3 && s[lo].kind
            == TokenKind::LeftSqBracket && (s[lo + 1].kind matches TokenKind::IntegerConstant(v)
            && n == v as usize) && s[lo + 2].kind == TokenKind::RightSqBracket,
        DirectDeclaratorModifier::Function(ps) => lo + 1 < hi && s[lo].kind == TokenKind::LeftParen
            && s[hi - 1].kind == TokenKind::RightParen && params_match(s, lo + 1, hi - 1, ps@),
    }
}

/// The modifiers `mods` read from `[lo, hi)` back to back, in encounter
/// order.
pub open spec fn modifiers_match(
    s: Seq<Token>,
    lo: int,
    hi: int,
    mods: Seq<DirectDeclaratorModifier>,
) -> bool
    decreases hi - lo, 3int,
    when 0 <= lo <= hi <= s.len()
{
    if mods.len() == 0 {
        lo == hi
    } else {
        exists|m: int|
            #![trigger s[m]]
            lo <= m && m < hi && modifiers_match(s, lo, m, mods.drop_last()) && modifier_matches(
                s,
                m,
                hi,
                mods.last(),
            )
    }
}

/// One parameter declaration reads from `[lo, hi)`: a qualifier and a
/// declarator.
pub open spec fn param_decl_matches(s: Seq<Token>, lo: int, hi: int, p: ParameterDeclaration) -> bool
    decreases hi - lo, 0int,
    when 0 <= lo <= hi <= s.len()
{
    lo < hi && (s[lo].kind matches TokenKind::Qualifier(q) && p.specifier
        == DeclarationSpecifier::TypeSpecifier(specifier_of(q))) && declarator_matches(
        s,
        lo + 1,
        hi,
        p.declarator,
    )
}

/// The non-empty comma-separated parameter list `ps` reads from `[lo, hi)`.
pub open spec fn params_match(s: Seq<Token>, lo: int, hi: int, ps: Seq<ParameterDeclaration>) -> bool
    decreases hi - lo, 1int,
    when 0 <= lo <= hi <= s.len()
{
    if ps.len() == 0 {
        false
    } else if ps.len() == 1 {
        param_decl_matches(s, lo, hi, ps[0])
    } else {
        exists|m: int|
            #![trigger s[m]]
            lo <= m && m < hi && s[m].kind == TokenKind::Comma && params_match(
                s,
                lo,
                m,
                ps.drop_last(),
            ) && param_decl_matches(s, m + 1, hi, ps.last())
    }
}

/// One init-declarator reads from `[lo, hi)`: a declarator with an optional
/// `=` initializer.
pub open spec fn init_declarator_matches(s: Seq<Token>, lo: int, hi: int, id: InitDeclarator) -> bool
    decreases hi - lo,
    when 0 <= lo <= hi <= s.len()
{
    match id.initializer {
        None => declarator_matches(s, lo, hi, id.declarator),
        Some(init) => exists|m: int|
            #![trigger s[m]]
            lo < m && m < hi && declarator_matches(s, lo, m, id.declarator) && s[m].kind
                == TokenKind::Relop(crate::token::RelopKind::Assign) && initializer_matches(
                s,
                m + 1,
                hi,
                init,
            ),
    }
}

/// The non-empty comma-separated init-declarator list reads from `[lo, hi)`.
pub open spec fn init_decls_match(s: Seq<Token>, lo: int, hi: int, ids: Seq<InitDeclarator>) -> bool
    decreases ids.len(),
    when 0 <= lo <= hi <= s.len()
{
    if ids.len() == 0 {
        false
    } else if ids.len() == 1 {
        init_declarator_matches(s, lo, hi, ids[0])
    } else {
        exists|m: int|
            #![trigger s[m]]
            lo <= m && m < hi && s[m].kind == TokenKind::Comma && init_decls_match(
                s,
                lo,
                m,
                ids.drop_last(),
            ) && init_declarator_matches(s, m + 1, hi, ids.last())
    }
}

/// A declaration reads from `[lo, hi)`: a qualifier, a non-empty
/// init-declarator list, and a terminating `;`.
pub open spec fn decl_matches(s: Seq<Token>, lo: int, hi: int, d: Declaration) -> bool {
    &&& 0 <= lo
    &&& lo + 2 <= hi <= s.len()
    &&& (s[lo].kind matches TokenKind::Qualifier(q) && d.declaration_specifier
        == DeclarationSpecifier::TypeSpecifier(specifier_of(q)))
    &&& s[hi - 1].kind == TokenKind::Semicolon
    &&& init_decls_match(s, lo + 1, hi - 1, d.init_declarator_list.0@)
}

/// An optional-expression statement clause reads from `[lo, hi)`: a bare `;`
/// or an expression followed by `;`.
pub open spec fn opt_expr_stmt_matches(
    s: Seq<Token>,
    lo: int,
    hi: int,
    opt: Option<Expression>,
) -> bool {
    &&& 0 <= lo < hi <= s.len()
    &&& s[hi - 1].kind == TokenKind::Semicolon
    &&& (match opt {
        None => hi == lo + 1,
        Some(e) => expr_matches(s, lo, hi - 1, e),
    })
}

/// The statement `st` reads from `[lo, hi)`, with C's statement shapes.
pub open spec fn stmt_matches(s: Seq<Token>, lo: int, hi: int, st: Statement) -> bool
    decreases hi - lo, 0int,
    when 0 <= lo <= hi <= s.len()
{
    lo < hi && (match st {
        Statement::Compound(c) => lo + 1 < hi && s[lo].kind == TokenKind::LeftBrace && s[hi
            - 1].kind == TokenKind::RightBrace && block_items_match(s, lo + 1, hi - 1, c.0@),
        Statement::Expression(opt) => opt_expr_stmt_matches(s, lo, hi, opt),
        Statement::Selection(sel) => lo + 1 < hi && s[lo].kind == TokenKind::If && s[lo + 1].kind
            == TokenKind::LeftParen && (match sel.alternative {
            None => exists|m1: int|
                #![trigger s[m1]]
                lo + 2 < m1 && m1 + 1 <= hi && s[m1].kind == TokenKind::RightParen
                    && expr_matches(s, lo + 2, m1, sel.condition) && stmt_matches(
                    s,
                    m1 + 1,
                    hi,
                    *sel.consequent,
                ),
            Some(alt) => exists|m1: int, m2: int|
                #![trigger s[m1], s[m2]]
                lo + 2 < m1 && m1 + 1 < m2 && m2 < hi && s[m1].kind == TokenKind::RightParen
                    && expr_matches(s, lo + 2, m1, sel.condition) && stmt_matches(
                    s,
                    m1 + 1,
                    m2,
                    *sel.consequent,
                ) && s[m2].kind == TokenKind::Else && stmt_matches(s, m2 + 1, hi, *alt),
        }),
        Statement::Iteration(it) => match it {
            IterationStatement::While(w) => lo + 1 < hi && s[lo].kind == TokenKind::While && s[lo
                + 1].kind == TokenKind::LeftParen && (exists|m: int|
                lo + 2 < m && m + 1 < hi && s[m].kind == TokenKind::RightParen && expr_matches(
                    s,
                    lo + 2,
                    m,
                    w.condition,
                ) && stmt_matches(s, m + 1, hi, *w.body)),
            IterationStatement::Do(d) => lo < hi && s[lo].kind == TokenKind::Do && s[hi - 1].kind
                == TokenKind::RightParen && (exists|m: int|
                #![trigger s[m]]
                lo + 1 < m && m + 2 < hi - 1 && stmt_matches(s, lo + 1, m, *d.body) && s[m].kind
                    == TokenKind::While && s[m + 1].kind == TokenKind::LeftParen && expr_matches(
                    s,
                    m + 2,
                    hi - 1,
                    d.condition,
                )),
            IterationStatement::For(f) => lo + 1 < hi && s[lo].kind == TokenKind::For && s[lo
                + 1].kind == TokenKind::LeftParen && (exists|m1: int, m2: int, m3: int|
                #![trigger s[m1], s[m2], s[m3]]
                lo + 2 < m1 && m1 <= m2 && m2 <= m3 && m3 + 1 < hi && (match f.initialization {
                    ForInitialization::Declaration(d) => decl_matches(s, lo + 2, m1, d),
                    ForInitialization::Expression(opt) => opt_expr_stmt_matches(s, lo + 2, m1, opt),
                }) && opt_expr_stmt_matches(s, m1, m2, f.condition) && (match f.update {
                    None => m3 == m2,
                    Some(u) => m2 < m3 && expr_matches(s, m2, m3, u),
                }) && s[m3].kind == TokenKind::RightParen && stmt_matches(s, m3 + 1, hi, *f.body)),
        },
        Statement::Jump(j) => match j {
            JumpStatement::Continue => hi == lo + 2 && s[lo].kind == TokenKind::Continue && s[lo
                + 1].kind == TokenKind::Semicolon,
            JumpStatement::Break => hi == lo + 2 && s[lo].kind == TokenKind::Break && s[lo
                + 1].kind == TokenKind::Semicolon,
            JumpStatement::Return(opt) => s[lo].kind == TokenKind::Return && opt_expr_stmt_matches(
                s,
                lo + 1,
                hi,
                opt,
            ),
        },
    })
}

/// One block item reads from `[lo, hi)`: a declaration exactly when a type
/// qualifier stands at the cursor, a statement otherwise.
pub open spec fn block_item_matches(s: Seq<Token>, lo: int, hi: int, it: BlockItem) -> bool
    decreases hi - lo, 1int,
    when 0 <= lo <= hi <= s.len()
{
    lo < hi && (match it {
        BlockItem::Declaration(d) => (s[lo].kind matches TokenKind::Qualifier(_)) && decl_matches(
            s,
            lo,
            hi,
            d,
        ),
        BlockItem::Statement(st) => !(s[lo].kind matches TokenKind::Qualifier(_)) && stmt_matches(
            s,
            lo,
            hi,
            st,
        ),
    })
}

/// The block items read from `[lo, hi)` back to back, in order.
pub open spec fn block_items_match(s: Seq<Token>, lo: int, hi: int, items: Seq<BlockItem>) -> bool
    decreases hi - lo, 2int,
    when 0 <= lo <= hi <= s.len()
{
    if items.len() == 0 {
        lo == hi
    } else {
        exists|m: int|
            #![trigger s[m]]
            lo <= m && m < hi && block_items_match(s, lo, m, items.drop_last())
                && block_item_matches(s, m, hi, items.last())
    }
}

/// A compound statement value reads from `[lo, hi)`: `{`, its items, `}`.
pub open spec fn compound_matches(s: Seq<Token>, lo: int, hi: int, c: CompoundStatement) -> bool {
    &&& 0 <= lo
    &&& lo + 1 < hi <= s.len()
    &&& s[lo].kind == TokenKind::LeftBrace
    &&& s[hi - 1].kind == TokenKind::RightBrace
    &&& block_items_match(s, lo + 1, hi - 1, c.0@)
}

/// One external declaration reads from `[lo, hi)`: a qualifier and a
/// declarator, then a function body or an init-declarator list with `;`.
pub open spec fn ext_decl_matches(s: Seq<Token>, lo: int, hi: int, ed: ExternalDeclaration) -> bool {
    &&& 0 <= lo
    &&& lo < hi <= s.len()
    &&& (match ed {
        ExternalDeclaration::FunctionDeclaration(f) => (s[lo].kind matches TokenKind::Qualifier(q)
            && f.declaration_specifier == DeclarationSpecifier::TypeSpecifier(specifier_of(q)))
            && (exists|m: int|
            #![trigger declarator_matches(s, lo + 1, m, f.declarator)]
            lo + 1 < m && m < hi && declarator_matches(s, lo + 1, m, f.declarator)
                && compound_matches(s, m, hi, f.compound_statement)),
        ExternalDeclaration::Declaration(d) => decl_matches(s, lo, hi, d),
    })
}

/// The external declarations read from `[lo, hi)` back to back, in order.
pub open spec fn ext_decls_match(
    s: Seq<Token>,
    lo: int,
    hi: int,
    decls: Seq<ExternalDeclaration>,
) -> bool
    decreases decls.len(),
    when 0 <= lo <= hi <= s.len()
{
    if decls.len() == 0 {
        lo == hi
    } else {
        exists|m: int|
            #![trigger s[m]]
            lo <= m && m < hi && ext_decls_match(s, lo, m, decls.drop_last()) && ext_decl_matches(
                s,
                m,
                hi,
                decls.last(),
            )
    }
}

/// Clamps a cursor into `(i, n]` so the recursion measure of the parsing
/// specification is plain; the parser's own cursors always lie in that
/// range, so the guard never changes a reachable value.
pub open spec fn step_to(n: int, i: int, j: int) -> int {
    if i < j <= n {
        j
    } else {
        n
    }
}

/// The result `parse_left` is specified to give: the delimiter's position
/// and the next cursor, or the exact expectation error.
pub open spec fn spec_parse_left(s: Seq<Token>, i: int, c: char) -> Result<(Position, int), Error> {
    if 0 <= i < s.len() && s[i].kind == left_delim_kind(c) {
        Ok((s[i].pos, i + 1))
    } else {
        Err(
            Error {
                pos: err_pos(s, i),
                error_kind: ErrorKind::ExpectStr(left_delim_expected(c)),
            },
        )
    }
}

/// The result `parse_right` is specified to give: the next cursor, or the
/// unmatched-delimiter error at the opener.
pub open spec fn spec_parse_right(s: Seq<Token>, i: int, c: char, left_pos: Position) -> Result<
    int,
    Error,
> {
    if 0 <= i < s.len() && s[i].kind == right_delim_kind(c) {
        Ok(i + 1)
    } else {
        Err(Error { pos: left_pos, error_kind: ErrorKind::UnmatchedParenthesis(left_pos) })
    }
}

/// The cursor after a declaration specifier at `i`, or the exact error.
pub open spec fn spec_parse_declaration_specifier(s: Seq<Token>, i: int) -> Result<int, Error> {
    if 0 <= i < s.len() && (s[i].kind matches TokenKind::Qualifier(_)) {
        Ok(i + 1)
    } else {
        Err(Error { pos: err_pos(s, i), error_kind: ErrorKind::ExpectDeclarationSpecifier })
    }
}

/// The cursor after an integer constant at `i`, or the exact error.
pub open spec fn spec_parse_integer_constant(s: Seq<Token>, i: int) -> Result<int, Error> {
    if 0 <= i < s.len() && (s[i].kind matches TokenKind::IntegerConstant(_)) {
        Ok(i + 1)
    } else {
        Err(Error { pos: err_pos(s, i), error_kind: ErrorKind::ExpectIntegerConstant })
    }
}

/// The cursor after a primary expression at `i`, or the exact error.
pub open spec fn spec_parse_primary_expression(s: Seq<Token>, i: int) -> Result<int, Error>
    decreases s.len() - i, 480int,
    when 0 <= i <= s.len()
{
    if i == s.len() {
        Err(Error { pos: err_pos(s, i), error_kind: ErrorKind::ExpectExpression })
    } else {
        match s[i].kind {
            TokenKind::Id(_) => Ok(i + 1),
            TokenKind::IntegerConstant(_) => Ok(i + 1),
            TokenKind::FloatingConstant(_) => Ok(i + 1),
            TokenKind::LeftParen => match spec_parse_expression(s, i + 1) {
                Err(e) => Err(e),
                Ok(j) => spec_parse_right(s, j, ')', s[i].pos),
            },
            _ => Err(Error { pos: err_pos(s, i), error_kind: ErrorKind::ExpectExpression }),
        }
    }
}

/// The cursor after a postfix expression at `i`, or the exact error.
pub open spec fn spec_parse_postfix_expression(s: Seq<Token>, i: int) -> Result<int, Error>
    decreases s.len() - i, 490int,
    when 0 <= i <= s.len()
{
    match spec_parse_primary_expression(s, i) {
        Err(e) => Err(e),
        Ok(j) => spec_parse_postfix_more(s, step_to(s.len() as int, i, j)),
    }
}

/// Folds further subscripts and calls from `i` on.
pub open spec fn spec_parse_postfix_more(s: Seq<Token>, i: int) -> Result<int, Error>
    decreases s.len() - i, 489int,
    when 0 <= i <= s.len()
{
    if i < s.len() && s[i].kind == TokenKind::LeftSqBracket {
        match spec_parse_expression(s, i + 1) {
            Err(e) => Err(e),
            Ok(j) => match spec_parse_right(s, j, ']', s[i].pos) {
                Err(e) => Err(e),
                Ok(j2) => spec_parse_postfix_more(s, step_to(s.len() as int, i, j2)),
            },
        }
    } else if i < s.len() && s[i].kind == TokenKind::LeftParen {
        if i + 1 < s.len() && s[i + 1].kind == TokenKind::RightParen {
            spec_parse_postfix_more(s, i + 2)
        } else {
            match spec_parse_argument_expression_list(s, i + 1) {
                Err(e) => Err(e),
                Ok(j) => match spec_parse_right(s, j, ')', s[i].pos) {
                    Err(e) => Err(e),
                    Ok(j2) => spec_parse_postfix_more(s, step_to(s.len() as int, i, j2)),
                },
            }
        }
    } else {
        Ok(i)
    }
}

/// The cursor after a non-empty argument list at `i`, or the exact error.
pub open spec fn spec_parse_argument_expression_list(s: Seq<Token>, i: int) -> Result<int, Error>
    decreases s.len() - i, 650int,
    when 0 <= i <= s.len()
{
    match spec_parse_assignment_expression(s, i) {
        Err(e) => Err(e),
        Ok(j) => spec_parse_args_more(s, step_to(s.len() as int, i, j)),
    }
}

/// Folds further comma-separated arguments from `i` on.
pub open spec fn spec_parse_args_more(s: Seq<Token>, i: int) -> Result<int, Error>
    decreases s.len() - i, 649int,
    when 0 <= i <= s.len()
{
    if i < s.len() && s[i].kind == TokenKind::Comma {
        match spec_parse_assignment_expression(s, i + 1) {
            Err(e) => Err(e),
            Ok(j) => spec_parse_args_more(s, step_to(s.len() as int, i, j)),
        }
    } else {
        Ok(i)
    }
}

/// The cursor after a unary expression at `i`, or the exact error.
pub open spec fn spec_parse_unary_expression(s: Seq<Token>, i: int) -> Result<int, Error>
    decreases s.len() - i, 500int,
    when 0 <= i <= s.len()
{
    if i == s.len() {
        Err(Error { pos: err_pos(s, i), error_kind: ErrorKind::ExpectExpression })
    } else if spec_unary_operator(s[i].kind) is Some {
        spec_parse_unary_expression(s, i + 1)
    } else {
        spec_parse_postfix_expression(s, i)
    }
}

/// The cursor after this precedence tier at `i`, or the exact error.
pub open spec fn spec_parse_logical_or_expression(s: Seq<Token>, i: int) -> Result<int, Error>
    decreases s.len() - i, 580int,
    when 0 <= i <= s.len()
{
    match spec_parse_logical_and_expression(s, i) {
        Err(e) => Err(e),
        Ok(j) => spec_parse_logical_or_more(s, step_to(s.len() as int, i, j)),
    }
}

/// Folds further `logical_or`-tier operators from `i` on.
pub open spec fn spec_parse_logical_or_more(s: Seq<Token>, i: int) -> Result<int, Error>
    decreases s.len() - i, 579int,
    when 0 <= i <= s.len()
{
    if i < s.len() && (s[i].kind == TokenKind::Or) {
        match spec_parse_logical_and_expression(s, i + 1) {
            Err(e) => Err(e),
            Ok(j) => spec_parse_logical_or_more(s, step_to(s.len() as int, i, j)),
        }
    } else {
        Ok(i)
    }
}

/// The cursor after this precedence tier at `i`, or the exact error.
pub open spec fn spec_parse_logical_and_expression(s: Seq<Token>, i: int) -> Result<int, Error>
    decreases s.len() - i, 570int,
    when 0 <= i <= s.len()
{
    match spec_parse_or_expression(s, i) {
        Err(e) => Err(e),
        Ok(j) => spec_parse_logical_and_more(s, step_to(s.len() as int, i, j)),
    }
}

/// Folds further `logical_and`-tier operators from `i` on.
pub open spec fn spec_parse_logical_and_more(s: Seq<Token>, i: int) -> Result<int, Error>
    decreases s.len() - i, 569int,
    when 0 <= i <= s.len()
{
    if i < s.len() && (s[i].kind == TokenKind::And) {
        match spec_parse_or_expression(s, i + 1) {
            Err(e) => Err(e),
            Ok(j) => spec_parse_logical_and_more(s, step_to(s.len() as int, i, j)),
        }
    } else {
        Ok(i)
    }
}

/// The cursor after this precedence tier at `i`, or the exact error.
pub open spec fn spec_parse_or_expression(s: Seq<Token>, i: int) -> Result<int, Error>
    decreases s.len() - i, 560int,
    when 0 <= i <= s.len()
{
    match spec_parse_and_expression(s, i) {
        Err(e) => Err(e),
        Ok(j) => spec_parse_or_more(s, step_to(s.len() as int, i, j)),
    }
}

/// Folds further `or`-tier operators from `i` on.
pub open spec fn spec_parse_or_more(s: Seq<Token>, i: int) -> Result<int, Error>
    decreases s.len() - i, 559int,
    when 0 <= i <= s.len()
{
    if i < s.len() && (s[i].kind == TokenKind::BitOr) {
        match spec_parse_and_expression(s, i + 1) {
            Err(e) => Err(e),
            Ok(j) => spec_parse_or_more(s, step_to(s.len() as int, i, j)),
        }
    } else {
        Ok(i)
    }
}

/// The cursor after this precedence tier at `i`, or the exact error.
pub open spec fn spec_parse_and_expression(s: Seq<Token>, i: int) -> Result<int, Error>
    decreases s.len() - i, 550int,
    when 0 <= i <= s.len()
{
    match spec_parse_equality_expression(s, i) {
        Err(e) => Err(e),
        Ok(j) => spec_parse_and_more(s, step_to(s.len() as int, i, j)),
    }
}

/// Folds further `and`-tier operators from `i` on.
pub open spec fn spec_parse_and_more(s: Seq<Token>, i: int) -> Result<int, Error>
    decreases s.len() - i, 549int,
    when 0 <= i <= s.len()
{
    if i < s.len() && (s[i].kind == TokenKind::BitAnd) {
        match spec_parse_equality_expression(s, i + 1) {
            Err(e) => Err(e),
            Ok(j) => spec_parse_and_more(s, step_to(s.len() as int, i, j)),
        }
    } else {
        Ok(i)
    }
}

/// The cursor after this precedence tier at `i`, or the exact error.
pub open spec fn spec_parse_equality_expression(s: Seq<Token>, i: int) -> Result<int, Error>
    decreases s.len() - i, 540int,
    when 0 <= i <= s.len()
{
    match spec_parse_relational_expression(s, i) {
        Err(e) => Err(e),
        Ok(j) => spec_parse_equality_more(s, step_to(s.len() as int, i, j)),
    }
}

/// Folds further `equality`-tier operators from `i` on.
pub open spec fn spec_parse_equality_more(s: Seq<Token>, i: int) -> Result<int, Error>
    decreases s.len() - i, 539int,
    when 0 <= i <= s.len()
{
    if i < s.len() && (s[i].kind == TokenKind::Relop(crate::token::RelopKind::Eq) || s[i].kind == TokenKind::Relop(crate::token::RelopKind::Neq)) {
        match spec_parse_relational_expression(s, i + 1) {
            Err(e) => Err(e),
            Ok(j) => spec_parse_equality_more(s, step_to(s.len() as int, i, j)),
        }
    } else {
        Ok(i)
    }
}

/// The cursor after this precedence tier at `i`, or the exact error.
pub open spec fn spec_parse_relational_expression(s: Seq<Token>, i: int) -> Result<int, Error>
    decreases s.len() - i, 530int,
    when 0 <= i <= s.len()
{
    match spec_parse_additive_expression(s, i) {
        Err(e) => Err(e),
        Ok(j) => spec_parse_relational_more(s, step_to(s.len() as int, i, j)),
    }
}

/// Folds further `relational`-tier operators from `i` on.
pub open spec fn spec_parse_relational_more(s: Seq<Token>, i: int) -> Result<int, Error>
    decreases s.len() - i, 529int,
    when 0 <= i <= s.len()
{
    if i < s.len() && (s[i].kind == TokenKind::Relop(crate::token::RelopKind::Le) || s[i].kind == TokenKind::Relop(crate::token::RelopKind::Lt) || s[i].kind == TokenKind::Relop(crate::token::RelopKind::Ge) || s[i].kind == TokenKind::Relop(crate::token::RelopKind::Gt)) {
        match spec_parse_additive_expression(s, i + 1) {
            Err(e) => Err(e),
            Ok(j) => spec_parse_relational_more(s, step_to(s.len() as int, i, j)),
        }
    } else {
        Ok(i)
    }
}

/// The cursor after this precedence tier at `i`, or the exact error.
pub open spec fn spec_parse_additive_expression(s: Seq<Token>, i: int) -> Result<int, Error>
    decreases s.len() - i, 520int,
    when 0 <= i <= s.len()
{
    match spec_parse_multiplicative_expression(s, i) {
        Err(e) => Err(e),
        Ok(j) => spec_parse_additive_more(s, step_to(s.len() as int, i, j)),
    }
}

/// Folds further `additive`-tier operators from `i` on.
pub open spec fn spec_parse_additive_more(s: Seq<Token>, i: int) -> Result<int, Error>
    decreases s.len() - i, 519int,
    when 0 <= i <= s.len()
{
    if i < s.len() && (s[i].kind == TokenKind::Plus || s[i].kind == TokenKind::Minus) {
        match spec_parse_multiplicative_expression(s, i + 1) {
            Err(e) => Err(e),
            Ok(j) => spec_parse_additive_more(s, step_to(s.len() as int, i, j)),
        }
    } else {
        Ok(i)
    }
}

/// The cursor after this precedence tier at `i`, or the exact error.
pub open spec fn spec_parse_multiplicative_expression(s: Seq<Token>, i: int) -> Result<int, Error>
    decreases s.len() - i, 510int,
    when 0 <= i <= s.len()
{
    match spec_parse_unary_expression(s, i) {
        Err(e) => Err(e),
        Ok(j) => spec_parse_multiplicative_more(s, step_to(s.len() as int, i, j)),
    }
}

/// Folds further `multiplicative`-tier operators from `i` on.
pub open spec fn spec_parse_multiplicative_more(s: Seq<Token>, i: int) -> Result<int, Error>
    decreases s.len() - i, 509int,
    when 0 <= i <= s.len()
{
    if i < s.len() && (s[i].kind == TokenKind::Star || s[i].kind == TokenKind::Divide) {
        match spec_parse_unary_expression(s, i + 1) {
            Err(e) => Err(e),
            Ok(j) => spec_parse_multiplicative_more(s, step_to(s.len() as int, i, j)),
        }
    } else {
        Ok(i)
    }
}

/// The cursor after an assignment expression at `i`, or the exact error:
/// the speculative unary parse commits only when `=` follows, else the
/// cursor rewinds to `i` and the logical-or ladder decides.
pub open spec fn spec_parse_assignment_expression(s: Seq<Token>, i: int) -> Result<int, Error>
    decreases s.len() - i, 590int,
    when 0 <= i <= s.len()
{
    if i == s.len() {
        Err(Error { pos: err_pos(s, i), error_kind: ErrorKind::ExpectExpression })
    } else {
        match spec_parse_unary_expression(s, i) {
            Err(e) => Err(e),
            Ok(m) => if m < s.len() && s[m].kind == TokenKind::Relop(
                crate::token::RelopKind::Assign,
            ) {
                spec_parse_assignment_expression(s, step_to(s.len() as int, i, m + 1))
            } else {
                spec_parse_logical_or_expression(s, i)
            },
        }
    }
}

/// The cursor after a whole (comma-tier) expression at `i`, or the exact
/// error.
pub open spec fn spec_parse_expression(s: Seq<Token>, i: int) -> Result<int, Error>
    decreases s.len() - i, 600int,
    when 0 <= i <= s.len()
{
    match spec_parse_assignment_expression(s, i) {
        Err(e) => Err(e),
        Ok(j) => spec_parse_expression_more(s, step_to(s.len() as int, i, j)),
    }
}

/// Folds further comma operators from `i` on.
pub open spec fn spec_parse_expression_more(s: Seq<Token>, i: int) -> Result<int, Error>
    decreases s.len() - i, 599int,
    when 0 <= i <= s.len()
{
    if i < s.len() && s[i].kind == TokenKind::Comma {
        match spec_parse_assignment_expression(s, i + 1) {
            Err(e) => Err(e),
            Ok(j) => spec_parse_expression_more(s, step_to(s.len() as int, i, j)),
        }
    } else {
        Ok(i)
    }
}

/// The cursor after a declarator at `i`, or the exact error.
pub open spec fn spec_parse_declarator(s: Seq<Token>, i: int) -> Result<int, Error>
    decreases s.len() - i, 840int,
    when 0 <= i <= s.len()
{
    if i == s.len() {
        Err(Error { pos: err_pos(s, i), error_kind: ErrorKind::ExpectDeclarator })
    } else if s[i].kind == TokenKind::Star {
        spec_parse_direct_declarator(s, step_to(s.len() as int, i, star_run_end(s, i)))
    } else {
        spec_parse_direct_declarator(s, i)
    }
}

/// The cursor after a direct declarator at `i`, or the exact error.
pub open spec fn spec_parse_direct_declarator(s: Seq<Token>, i: int) -> Result<int, Error>
    decreases s.len() - i, 830int,
    when 0 <= i <= s.len()
{
    if i == s.len() {
        Err(Error { pos: err_pos(s, i), error_kind: ErrorKind::ExpectDirectDeclarator })
    } else {
        match s[i].kind {
            TokenKind::LeftParen => match spec_parse_declarator(s, i + 1) {
                Err(e) => Err(e),
                Ok(m) => match spec_parse_right(s, m, ')', s[i].pos) {
                    Err(e) => Err(e),
                    Ok(j) => spec_parse_direct_declarator_modifiers(
                        s,
                        step_to(s.len() as int, i, j),
                    ),
                },
            },
            TokenKind::Id(_) => spec_parse_direct_declarator_modifiers(s, i + 1),
            _ => Err(Error { pos: err_pos(s, i), error_kind: ErrorKind::ExpectDirectDeclarator }),
        }
    }
}

/// Folds trailing `[bound]` and `(parameters)` modifiers from `i` on.
pub open spec fn spec_parse_direct_declarator_modifiers(s: Seq<Token>, i: int) -> Result<int, Error>
    decreases s.len() - i, 820int,
    when 0 <= i <= s.len()
{
    if i < s.len() && s[i].kind == TokenKind::LeftParen {
        match spec_parse_parameter_list(s, i + 1) {
            Err(e) => Err(e),
            Ok(j) => match spec_parse_right(s, j, ')', s[i].pos) {
                Err(e) => Err(e),
                Ok(j2) => spec_parse_direct_declarator_modifiers(s, step_to(s.len() as int, i, j2)),
            },
        }
    } else if i < s.len() && s[i].kind == TokenKind::LeftSqBracket {
        match spec_parse_integer_constant(s, i + 1) {
            Err(e) => Err(e),
            Ok(j) => match spec_parse_right(s, j, ']', s[i].pos) {
                Err(e) => Err(e),
                Ok(j2) => spec_parse_direct_declarator_modifiers(s, step_to(s.len() as int, i, j2)),
            },
        }
    } else {
        Ok(i)
    }
}

/// The cursor after a non-empty parameter list at `i`, or the exact error.
pub open spec fn spec_parse_parameter_list(s: Seq<Token>, i: int) -> Result<int, Error>
    decreases s.len() - i, 810int,
    when 0 <= i <= s.len()
{
    match spec_parse_parameter_declaration(s, i) {
        Err(e) => Err(e),
        Ok(j) => spec_parse_params_more(s, step_to(s.len() as int, i, j)),
    }
}

/// Folds further comma-separated parameters from `i` on.
pub open spec fn spec_parse_params_more(s: Seq<Token>, i: int) -> Result<int, Error>
    decreases s.len() - i, 809int,
    when 0 <= i <= s.len()
{
    if i < s.len() && s[i].kind == TokenKind::Comma {
        match spec_parse_parameter_declaration(s, i + 1) {
            Err(e) => Err(e),
            Ok(j) => spec_parse_params_more(s, step_to(s.len() as int, i, j)),
        }
    } else {
        Ok(i)
    }
}

/// The cursor after one parameter declaration at `i`, or the exact error.
pub open spec fn spec_parse_parameter_declaration(s: Seq<Token>, i: int) -> Result<int, Error>
    decreases s.len() - i, 800int,
    when 0 <= i <= s.len()
{
    match spec_parse_declaration_specifier(s, i) {
        Err(e) => Err(e),
        Ok(j) => spec_parse_declarator(s, step_to(s.len() as int, i, j)),
    }
}

/// The cursor after an initializer at `i`, or the exact error.
pub open spec fn spec_parse_initializer(s: Seq<Token>, i: int) -> Result<int, Error>
    decreases s.len() - i, 860int,
    when 0 <= i <= s.len()
{
    if i < s.len() && s[i].kind == TokenKind::LeftBrace {
        match spec_parse_initializer(s, i + 1) {
            Err(e) => Err(e),
            Ok(j) => spec_parse_inits_tail(s, step_to(s.len() as int, i, j), s[i].pos),
        }
    } else {
        spec_parse_expression(s, i)
    }
}

/// Folds further comma-separated initializers from `i` on, then the closing
/// brace of the list opened at `left_pos`.
pub open spec fn spec_parse_inits_tail(s: Seq<Token>, i: int, left_pos: Position) -> Result<
    int,
    Error,
>
    decreases s.len() - i, 859int,
    when 0 <= i <= s.len()
{
    if i < s.len() && s[i].kind == TokenKind::Comma {
        match spec_parse_initializer(s, i + 1) {
            Err(e) => Err(e),
            Ok(j) => spec_parse_inits_tail(s, step_to(s.len() as int, i, j), left_pos),
        }
    } else {
        spec_parse_right(s, i, '}', left_pos)
    }
}

/// The cursor after an optional `= initializer` at `i`, or the exact error.
pub open spec fn spec_parse_assign_initializer(s: Seq<Token>, i: int) -> Result<int, Error> {
    if 0 <= i < s.len() && s[i].kind == TokenKind::Relop(crate::token::RelopKind::Assign) {
        spec_parse_initializer(s, i + 1)
    } else {
        Ok(i)
    }
}

/// The cursor after one init-declarator at `i`, or the exact error.
pub open spec fn spec_parse_init_declarator(s: Seq<Token>, i: int) -> Result<int, Error> {
    match spec_parse_declarator(s, i) {
        Err(e) => Err(e),
        Ok(m) => spec_parse_assign_initializer(s, m),
    }
}

/// Folds further comma-separated init-declarators from `i` on, then the
/// terminating `;`.
pub open spec fn spec_parse_decl_tail(s: Seq<Token>, i: int) -> Result<int, Error>
    decreases s.len() - i,
    when 0 <= i <= s.len()
{
    if i < s.len() && s[i].kind == TokenKind::Comma {
        match spec_parse_init_declarator(s, i + 1) {
            Err(e) => Err(e),
            Ok(j) => spec_parse_decl_tail(s, step_to(s.len() as int, i, j)),
        }
    } else {
        match spec_parse_left(s, i, ';') {
            Err(e) => Err(e),
            Ok(p) => Ok(p.1),
        }
    }
}

/// The cursor after a whole declaration at `i`, or the exact error.
pub open spec fn spec_parse_declaration(s: Seq<Token>, i: int) -> Result<int, Error> {
    match spec_parse_declaration_specifier(s, i) {
        Err(e) => Err(e),
        Ok(j) => match spec_parse_init_declarator(s, j) {
            Err(e) => Err(e),
            Ok(j2) => spec_parse_decl_tail(s, step_to(s.len() as int, i, j2)),
        },
    }
}

/// The cursor after an optional-expression statement clause at `i`, or the
/// exact error.
pub open spec fn spec_parse_expression_statement(s: Seq<Token>, i: int) -> Result<int, Error> {
    if 0 <= i < s.len() && s[i].kind == TokenKind::Semicolon {
        Ok(i + 1)
    } else {
        match spec_parse_expression(s, i) {
            Err(e) => Err(e),
            Ok(m) => match spec_parse_left(s, m, ';') {
                Err(e) => Err(e),
                Ok(p) => Ok(p.1),
            },
        }
    }
}

/// The cursor after a statement at `i`, or the exact error.
pub open spec fn spec_parse_statement(s: Seq<Token>, i: int) -> Result<int, Error>
    decreases s.len() - i, 730int,
    when 0 <= i <= s.len()
{
    if i == s.len() {
        Err(Error { pos: err_pos(s, i), error_kind: ErrorKind::ExpectStatement })
    } else {
        match s[i].kind {
            TokenKind::LeftBrace => spec_parse_compound_statement(s, i),
            TokenKind::If => spec_parse_selection_statement(s, i),
            TokenKind::Do => spec_parse_iteration_statement(s, i),
            TokenKind::For => spec_parse_iteration_statement(s, i),
            TokenKind::While => spec_parse_iteration_statement(s, i),
            TokenKind::Continue => spec_parse_jump_statement(s, i),
            TokenKind::Break => spec_parse_jump_statement(s, i),
            TokenKind::Return => spec_parse_jump_statement(s, i),
            _ => spec_parse_expression_statement(s, i),
        }
    }
}

/// The cursor after a compound statement at `i`, or the exact error.
pub open spec fn spec_parse_compound_statement(s: Seq<Token>, i: int) -> Result<int, Error>
    decreases s.len() - i, 720int,
    when 0 <= i <= s.len()
{
    if i == s.len() || s[i].kind != TokenKind::LeftBrace {
        Err(Error { pos: err_pos(s, i), error_kind: ErrorKind::ExpectCompoundStatement })
    } else {
        spec_parse_items_more(s, i + 1, s[i].pos)
    }
}

/// Folds block items from `i` to the closing brace of the block opened at
/// `left_pos`; running out of tokens is the unmatched-delimiter error at
/// that opening brace.
pub open spec fn spec_parse_items_more(s: Seq<Token>, i: int, left_pos: Position) -> Result<
    int,
    Error,
>
    decreases s.len() - i, 760int,
    when 0 <= i <= s.len()
{
    if i == s.len() {
        Err(Error { pos: left_pos, error_kind: ErrorKind::UnmatchedParenthesis(left_pos) })
    } else if s[i].kind == TokenKind::RightBrace {
        Ok(i + 1)
    } else {
        match spec_parse_block_item(s, i) {
            Err(e) => Err(e),
            Ok(j) => spec_parse_items_more(s, step_to(s.len() as int, i, j), left_pos),
        }
    }
}

/// The cursor after one block item at `i`, or the exact error.
pub open spec fn spec_parse_block_item(s: Seq<Token>, i: int) -> Result<int, Error>
    decreases s.len() - i, 750int,
    when 0 <= i <= s.len()
{
    if 0 <= i < s.len() && (s[i].kind matches TokenKind::Qualifier(_)) {
        spec_parse_declaration(s, i)
    } else {
        spec_parse_statement(s, i)
    }
}

/// The cursor after a selection statement at `i`, or the exact error.
pub open spec fn spec_parse_selection_statement(s: Seq<Token>, i: int) -> Result<int, Error>
    decreases s.len() - i, 720int,
    when 0 <= i <= s.len()
{
    match spec_parse_left(s, i + 1, '(') {
        Err(e) => Err(e),
        Ok(p) => match spec_parse_expression(s, p.1) {
            Err(e) => Err(e),
            Ok(m) => match spec_parse_right(s, m, ')', p.0) {
                Err(e) => Err(e),
                Ok(j) => match spec_parse_statement(s, step_to(s.len() as int, i, j)) {
                    Err(e) => Err(e),
                    Ok(m2) => if m2 < s.len() && s[m2].kind == TokenKind::Else {
                        spec_parse_statement(s, step_to(s.len() as int, i, m2 + 1))
                    } else {
                        Ok(m2)
                    },
                },
            },
        },
    }
}

/// The cursor after an iteration statement at `i`, or the exact error.
pub open spec fn spec_parse_iteration_statement(s: Seq<Token>, i: int) -> Result<int, Error>
    decreases s.len() - i, 720int,
    when 0 <= i <= s.len()
{
    if 0 <= i < s.len() && s[i].kind == TokenKind::While {
        spec_parse_while_statement(s, i)
    } else if 0 <= i < s.len() && s[i].kind == TokenKind::For {
        spec_parse_for_statement(s, i)
    } else {
        spec_parse_do_statement(s, i)
    }
}

/// The cursor after a while statement at `i`, or the exact error.
pub open spec fn spec_parse_while_statement(s: Seq<Token>, i: int) -> Result<int, Error>
    decreases s.len() - i, 710int,
    when 0 <= i <= s.len()
{
    match spec_parse_left(s, i + 1, '(') {
        Err(e) => Err(e),
        Ok(p) => match spec_parse_expression(s, p.1) {
            Err(e) => Err(e),
            Ok(m) => match spec_parse_right(s, m, ')', p.0) {
                Err(e) => Err(e),
                Ok(j) => spec_parse_statement(s, step_to(s.len() as int, i, j)),
            },
        },
    }
}

/// The cursor after a for statement at `i`, or the exact error.
pub open spec fn spec_parse_for_statement(s: Seq<Token>, i: int) -> Result<int, Error>
    decreases s.len() - i, 710int,
    when 0 <= i <= s.len()
{
    match spec_parse_left(s, i + 1, '(') {
        Err(e) => Err(e),
        Ok(p) => if p.1 >= s.len() {
            Err(Error { pos: err_pos(s, p.1), error_kind: ErrorKind::ExpectForInitialization })
        } else {
            match (if s[p.1].kind matches TokenKind::Qualifier(_) {
                spec_parse_declaration(s, p.1)
            } else {
                spec_parse_expression_statement(s, p.1)
            }) {
                Err(e) => Err(e),
                Ok(m1) => match spec_parse_expression_statement(s, m1) {
                    Err(e) => Err(e),
                    Ok(m2) => if m2 >= s.len() {
                        Err(Error { pos: p.0, error_kind: ErrorKind::UnmatchedParenthesis(p.0) })
                    } else {
                        match (if s[m2].kind == TokenKind::RightParen {
                            Ok(m2)
                        } else {
                            spec_parse_expression(s, m2)
                        }) {
                            Err(e) => Err(e),
                            Ok(m3) => match spec_parse_right(s, m3, ')', p.0) {
                                Err(e) => Err(e),
                                Ok(j) => spec_parse_statement(s, step_to(s.len() as int, i, j)),
                            },
                        }
                    },
                },
            }
        },
    }
}

/// The cursor after a do statement at `i`, or the exact error.
pub open spec fn spec_parse_do_statement(s: Seq<Token>, i: int) -> Result<int, Error>
    decreases s.len() - i, 710int,
    when 0 <= i <= s.len()
{
    if i == s.len() {
        Err(Error { pos: err_pos(s, i), error_kind: ErrorKind::ExpectStatement })
    } else {
        spec_parse_do_tail(s, i)
    }
}

/// The body and trailing `while (condition)` of a do statement at `i`.
pub open spec fn spec_parse_do_tail(s: Seq<Token>, i: int) -> Result<int, Error>
    decreases s.len() - i, 709int,
    when 0 <= i < s.len()
{
    match spec_parse_statement(s, i + 1) {
        Err(e) => Err(e),
        Ok(m) => if m < s.len() && s[m].kind == TokenKind::While {
            match spec_parse_left(s, m + 1, '(') {
                Err(e) => Err(e),
                Ok(p) => match spec_parse_expression(s, p.1) {
                    Err(e) => Err(e),
                    Ok(m2) => match spec_parse_right(s, m2, ')', p.0) {
                        Err(e) => Err(e),
                        Ok(j) => Ok(j),
                    },
                },
            }
        } else {
            Err(Error { pos: err_pos(s, m), error_kind: ErrorKind::ExpectStr(Expected::KwWhile) })
        },
    }
}

/// The cursor after a jump statement at `i`, or the exact error.
pub open spec fn spec_parse_jump_statement(s: Seq<Token>, i: int) -> Result<int, Error>
    decreases s.len() - i, 720int,
    when 0 <= i <= s.len()
{
    if 0 <= i < s.len() && (s[i].kind == TokenKind::Continue || s[i].kind == TokenKind::Break) {
        match spec_parse_left(s, i + 1, ';') {
            Err(e) => Err(e),
            Ok(p) => Ok(p.1),
        }
    } else {
        spec_parse_expression_statement(s, step_to(s.len() as int, i, i + 1))
    }
}

/// The cursor after one external declaration at `i`, or the exact error.
pub open spec fn spec_parse_external_declaration(s: Seq<Token>, i: int) -> Result<int, Error> {
    match spec_parse_declaration_specifier(s, i) {
        Err(e) => Err(e),
        Ok(j) => match spec_parse_declarator(s, step_to(s.len() as int, i, j)) {
            Err(e) => Err(e),
            Ok(m) => if m < s.len() && s[m].kind == TokenKind::LeftBrace {
                spec_parse_compound_statement(s, m)
            } else if m >= s.len() {
                Err(
                    Error {
                        pos: err_pos(s, m),
                        error_kind: ErrorKind::ExpectStr(Expected::SemicolonOrLeftBrace),
                    },
                )
            } else {
                match spec_parse_assign_initializer(s, m) {
                    Err(e) => Err(e),
                    Ok(j2) => spec_parse_decl_tail(s, step_to(s.len() as int, i, j2)),
                }
            },
        },
    }
}

/// The cursor after the external declarations from `i` to the end of the
/// tokens, or the first error; on success the whole sequence is consumed.
pub open spec fn spec_parse_translation_unit(s: Seq<Token>, i: int) -> Result<int, Error>
    decreases s.len() - i,
    when 0 <= i <= s.len()
{
    if i == s.len() {
        Ok(i)
    } else {
        match spec_parse_external_declaration(s, i) {
            Err(e) => Err(e),
            Ok(j) => spec_parse_translation_unit(s, step_to(s.len() as int, i, j)),
        }
    }
}

/// Whether a whole token sequence parses, and the exact error when not.
pub open spec fn spec_parse(s: Seq<Token>) -> Result<int, Error> {
    spec_parse_translation_unit(s, 0)
}

fn error(i: usize, tokens: &Vec<Token>, kind: ErrorKind) -> (e: Error)
    requires
        i <= tokens@.len(),
    ensures
        e == (Error { pos: err_pos(tokens@, i as int), error_kind: kind }),
{
    let pos = if i == 0 {
        Position { line: 0, col: 0 }
    } else {
        tokens[i - 1].pos
    };
    Error { pos, error_kind: kind }
}

/// The token kind a left delimiter character stands for.
pub open spec fn left_delim_kind(c: char) -> TokenKind {
    if c == '(' {
        TokenKind::LeftParen
    } else {
        TokenKind::Semicolon
    }
}

/// The expectation named when a left delimiter is missing.
pub open spec fn left_delim_expected(c: char) -> Expected {
    if c == '(' {
        Expected::LeftParen
    } else {
        Expected::Semicolon
    }
}

/// Consumes the delimiter `c` (`(` or `;`), yielding its position; fails
/// with `ExpectStr` when the next token is something else or the tokens are
/// exhausted.
pub fn parse_left(i: &mut usize, tokens: &Vec<Token>, c: char) -> (r: Result<Position, Error>)
    requires
        c == '(' || c == ';',
        *old(i) <= tokens@.len(),
    ensures
        *old(i) <= *final(i) <= tokens@.len(),
        r is Err ==> delimiter_policy(r->Err_0),
        r is Ok ==> *old(i) < tokens@.len() && tokens@[*old(i) as int].kind == left_delim_kind(c)
            && r->Ok_0 == tokens@[*old(i) as int].pos && *final(i) == *old(i) + 1,
        r is Err ==> *final(i) == *old(i) && (*old(i) == tokens@.len() || tokens@[*old(
            i,
        ) as int].kind != left_delim_kind(c)) && r->Err_0 == (Error {
            pos: err_pos(tokens@, *old(i) as int),
            error_kind: ErrorKind::ExpectStr(left_delim_expected(c)),
        }),
{
    let expected = if c == '(' {
        Expected::LeftParen
    } else {
        Expected::Semicolon
    };
    if *i >= tokens.len() {
        return Err(error(*i, tokens, ErrorKind::ExpectStr(expected)));
    }
    let token = &tokens[*i];
    let kind_matches = match (&token.kind, c) {
        (TokenKind::LeftParen, '(') => true,
        (TokenKind::Semicolon, ';') => true,
        _ => false,
    };
    if !kind_matches {
        return Err(error(*i, tokens, ErrorKind::ExpectStr(expected)));
    }
    *i = *i + 1;
    Ok(token.pos)
}

/// The token kind a right delimiter character stands for.
pub open spec fn right_delim_kind(c: char) -> TokenKind {
    if c == ')' {
        TokenKind::RightParen
    } else if c == ']' {
        TokenKind::RightSqBracket
    } else {
        TokenKind::RightBrace
    }
}

/// Consumes the closing delimiter `c` (`)`, `]` or `}`); fails with
/// `UnmatchedParenthesis` carrying the opening delimiter's position
/// `left_pos` when the next token is something else or the tokens are
/// exhausted.
pub fn parse_right(i: &mut usize, tokens: &Vec<Token>, c: char, left_pos: Position) -> (r: Result<
    (),
    Error,
>)
    requires
        c == ')' || c == ']' || c == '}',
        *old(i) <= tokens@.len(),
    ensures
        *old(i) <= *final(i) <= tokens@.len(),
        r is Err ==> delimiter_policy(r->Err_0),
        r is Ok ==> *old(i) < tokens@.len() && tokens@[*old(i) as int].kind == right_delim_kind(c)
            && *final(i) == *old(i) + 1,
        r is Err ==> *final(i) == *old(i) && (*old(i) == tokens@.len() || tokens@[*old(
            i,
        ) as int].kind != right_delim_kind(c)) && r->Err_0 == (Error {
            pos: left_pos,
            error_kind: ErrorKind::UnmatchedParenthesis(left_pos),
        }),
{
    let e = Error { pos: left_pos, error_kind: ErrorKind::UnmatchedParenthesis(left_pos) };
    if *i >= tokens.len() {
        return Err(e);
    }
    let token = &tokens[*i];
    let kind_matches = match (&token.kind, c) {
        (TokenKind::RightParen, ')') => true,
        (TokenKind::RightSqBracket, ']') => true,
        (TokenKind::RightBrace, '}') => true,
        _ => false,
    };
    if !kind_matches {
        return Err(e);
    }
    *i = *i + 1;
    Ok(())
}

/// The type specifier a qualifier token stands for.
pub open spec fn specifier_of(q: QualifierKind) -> TypeSpecifier {
    match q {
        QualifierKind::Void => TypeSpecifier::Void,
        QualifierKind::Int => TypeSpecifier::Int,
        QualifierKind::Double => TypeSpecifier::Double,
    }
}

/// Consumes one type qualifier token; fails with
/// `ExpectDeclarationSpecifier` on anything else.
pub fn parse_declaration_specifier(i: &mut usize, tokens: &Vec<Token>) -> (r: Result<
    DeclarationSpecifier,
    Error,
>)
    requires
        *old(i) <= tokens@.len(),
    ensures
        *old(i) <= *final(i) <= tokens@.len(),
        r is Err ==> delimiter_policy(r->Err_0),
        r is Ok ==> *old(i) < tokens@.len() && (tokens@[*old(i) as int].kind matches
            TokenKind::Qualifier(q) && r->Ok_0 == DeclarationSpecifier::TypeSpecifier(
            specifier_of(q),
        )) && *final(i) == *old(i) + 1,
        r is Err ==> *final(i) == *old(i) && (*old(i) == tokens@.len() || !(tokens@[*old(
            i,
        ) as int].kind matches TokenKind::Qualifier(_))) && r->Err_0 == (Error {
            pos: err_pos(tokens@, *old(i) as int),
            error_kind: ErrorKind::ExpectDeclarationSpecifier,
        }),
{
    if *i >= tokens.len() {
        return Err(error(*i, tokens, ErrorKind::ExpectDeclarationSpecifier));
    }
    let specifier = match &tokens[*i].kind {
        TokenKind::Qualifier(q) => match q {
            QualifierKind::Void => TypeSpecifier::Void,
            QualifierKind::Int => TypeSpecifier::Int,
            QualifierKind::Double => TypeSpecifier::Double,
        },
        _ => {
            return Err(error(*i, tokens, ErrorKind::ExpectDeclarationSpecifier));
        },
    };
    *i = *i + 1;
    Ok(DeclarationSpecifier::TypeSpecifier(specifier))
}

/// Consumes one integer-constant token, as an array bound; fails with
/// `ExpectIntegerConstant` on anything else.
pub fn parse_integer_constant(i: &mut usize, tokens: &Vec<Token>) -> (r: Result<usize, Error>)
    requires
        *old(i) <= tokens@.len(),
    ensures
        *old(i) <= *final(i) <= tokens@.len(),
        r is Err ==> delimiter_policy(r->Err_0),
        r is Ok ==> *old(i) < tokens@.len() && (tokens@[*old(i) as int].kind matches
            TokenKind::IntegerConstant(n) && r->Ok_0 == n as usize) && *final(i) == *old(i) + 1,
        r is Err ==> *final(i) == *old(i) && (*old(i) == tokens@.len() || !(tokens@[*old(
            i,
        ) as int].kind matches TokenKind::IntegerConstant(_))) && r->Err_0 == (Error {
            pos: err_pos(tokens@, *old(i) as int),
            error_kind: ErrorKind::ExpectIntegerConstant,
        }),
{
    if *i >= tokens.len() {
        return Err(error(*i, tokens, ErrorKind::ExpectIntegerConstant));
    }
    if let TokenKind::IntegerConstant(n) = tokens[*i].kind {
        *i = *i + 1;
        return Ok(n as usize);
    }
    Err(error(*i, tokens, ErrorKind::ExpectIntegerConstant))
}

/// Counts the run of consecutive `*` tokens at the cursor: the declarator's
/// pointer depth.
pub fn parse_pointer(i: &mut usize, tokens: &Vec<Token>) -> (count: usize)
    requires
        *old(i) < tokens@.len(),
        tokens@[*old(i) as int].kind == TokenKind::Star,
    ensures
        *old(i) < *final(i) <= tokens@.len(),
        count == *final(i) - *old(i),
        forall|k: int| *old(i) <= k < *final(i) ==> tokens@[k].kind == TokenKind::Star,
        *final(i) == tokens@.len() || tokens@[*final(i) as int].kind != TokenKind::Star,
{
    let ghost start: int = *i as int;
    let n_tokens = tokens.len();
    let mut count: usize = 0;
    loop
        invariant_except_break
            (*i as int) < tokens@.len(),
            tokens@[*i as int].kind == TokenKind::Star,
        invariant
            n_tokens == tokens@.len(),
            0 <= start <= *i as int <= tokens@.len(),
            count == *i as int - start,
            forall|k: int| start <= k < *i as int ==> tokens@[k].kind == TokenKind::Star,
        ensures
            start < *i as int <= tokens@.len(),
            count == *i as int - start,
            forall|k: int| start <= k < *i as int ==> tokens@[k].kind == TokenKind::Star,
            *i as int == tokens@.len() || tokens@[*i as int].kind != TokenKind::Star,
        decreases tokens@.len() - *i,
    {
        *i = *i + 1;
        count = count + 1;
        let again = if *i < tokens.len() {
            match &tokens[*i].kind {
                TokenKind::Star => true,
                _ => false,
            }
        } else {
            false
        };
        if !again {
            break;
        }
    }
    count
}

/// Parses a whole token sequence into a translation unit; an empty sequence
/// yields the empty translation unit.
pub fn parse(tokens: &Vec<Token>) -> (r: Result<TranslationUnit, Error>)
    ensures
        tokens@.len() == 0 ==> r is Ok && r->Ok_0.external_declarations@.len() == 0,
        r is Ok ==> ext_decls_match(
            tokens@,
            0,
            tokens@.len() as int,
            r->Ok_0.external_declarations@,
        ),
        r is Ok ==> spec_parse(tokens@) == Ok::<int, Error>(tokens@.len() as int),
        r is Err ==> spec_parse(tokens@) == Err::<int, Error>(r->Err_0),
    decreases tokens@.len(), 90int,
{
    let mut i: usize = 0;
    parse_translation_unit(&mut i, tokens)
}

/// Zero or more external declarations until the tokens are exhausted; on
/// success the whole sequence is consumed.
pub fn parse_translation_unit(i: &mut usize, tokens: &Vec<Token>) -> (r: Result<
    TranslationUnit,
    Error,
>)
    requires
        *old(i) <= tokens@.len(),
    ensures
        *old(i) <= *final(i) <= tokens@.len(),
        r is Err ==> delimiter_policy(r->Err_0),
        r is Ok ==> *final(i) == tokens@.len(),
        *old(i) == tokens@.len() ==> r is Ok && r->Ok_0.external_declarations@.len() == 0,
        r is Ok ==> ext_decls_match(
            tokens@,
            *old(i) as int,
            tokens@.len() as int,
            r->Ok_0.external_declarations@,
        ),
        r is Ok ==> spec_parse_translation_unit(tokens@, *old(i) as int) == Ok::<int, Error>(*final(i) as int),
        r is Err ==> spec_parse_translation_unit(tokens@, *old(i) as int) == Err::<int, Error>(r->Err_0),
    decreases tokens@.len() - *i, 89int,
{
    let n_tokens = tokens.len();
    let mut v: Vec<ExternalDeclaration> = Vec::new();
    proof {
        assert(v@ =~= Seq::<ExternalDeclaration>::empty());
    }
    while *i < n_tokens
        invariant
            spec_parse_translation_unit(tokens@, *old(i) as int) == spec_parse_translation_unit(tokens@, *i as int),
            n_tokens == tokens@.len(),
            (*old(i) as int) <= *i as int <= tokens@.len(),
            *old(i) == tokens@.len() ==> v@.len() == 0,
            ext_decls_match(tokens@, *old(i) as int, *i as int, v@),
        decreases tokens@.len() - *i,
    {
        let ghost pre: int = *i as int;
        let ghost pre_decls: Seq<ExternalDeclaration> = v@;
        let d = parse_external_declaration(i, tokens)?;
        v.push(d);
        proof {
            let seed = tokens@[pre];
            assert(v@.drop_last() =~= pre_decls);
            assert(ext_decl_matches(tokens@, pre, *i as int, v@.last()));
            assert(ext_decls_match(tokens@, *old(i) as int, pre, v@.drop_last()));
            assert(ext_decls_match(tokens@, *old(i) as int, *i as int, v@));
        }
    }
    Ok(TranslationUnit { external_declarations: v })
}

/// A declaration specifier and a declarator, then either a function body or
/// an init-declarator list terminated by `;`; the result carries exactly the
/// specifier of the qualifier token at the cursor.
pub fn parse_external_declaration(i: &mut usize, tokens: &Vec<Token>) -> (r: Result<
    ExternalDeclaration,
    Error,
>)
    requires
        *old(i) <= tokens@.len(),
    ensures
        *old(i) <= *final(i) <= tokens@.len(),
        r is Err ==> delimiter_policy(r->Err_0),
        r is Ok ==> *old(i) < *final(i),
        r is Ok ==> (tokens@[*old(i) as int].kind matches TokenKind::Qualifier(q) && (match r->Ok_0 {
            ExternalDeclaration::FunctionDeclaration(f) => f.declaration_specifier
                == DeclarationSpecifier::TypeSpecifier(specifier_of(q)),
            ExternalDeclaration::Declaration(d) => d.declaration_specifier
                == DeclarationSpecifier::TypeSpecifier(specifier_of(q)),
        })),
        r is Ok ==> ext_decl_matches(tokens@, *old(i) as int, *final(i) as int, r->Ok_0),
        *old(i) == tokens@.len() || !(tokens@[*old(i) as int].kind matches TokenKind::Qualifier(
            _,
        )) ==> r is Err && *final(i) == *old(i) && r->Err_0 == (Error {
            pos: err_pos(tokens@, *old(i) as int),
            error_kind: ErrorKind::ExpectDeclarationSpecifier,
        }),
        r is Ok ==> spec_parse_external_declaration(tokens@, *old(i) as int) == Ok::<int, Error>(*final(i) as int),
        r is Err ==> spec_parse_external_declaration(tokens@, *old(i) as int) == Err::<int, Error>(r->Err_0),
    decreases tokens@.len() - *i, 88int,
{
    let n_tokens = tokens.len();
    let specifier = parse_declaration_specifier(i, tokens)?;
    let declarator = parse_declarator(i, tokens)?;
    let ghost decl_end: int = *i as int;
    let next_is_brace = if *i < n_tokens {
        match &tokens[*i].kind {
            TokenKind::LeftBrace => true,
            _ => false,
        }
    } else {
        false
    };
    if next_is_brace {
        let compound_statement = parse_compound_statement(i, tokens)?;
        let ed = ExternalDeclaration::FunctionDeclaration(
            FunctionDefinition { declaration_specifier: specifier, declarator, compound_statement },
        );
        proof {
            let seed = tokens@[decl_end];
            match &ed {
                ExternalDeclaration::FunctionDeclaration(f) => {
                    assert(declarator_matches(tokens@, *old(i) + 1, decl_end, f.declarator));
                    assert(compound_matches(tokens@, decl_end, *i as int, f.compound_statement));
                },
                _ => {},
            }
            assert(ext_decl_matches(tokens@, *old(i) as int, *i as int, ed));
        }
        return Ok(ed);
    }
    if *i >= n_tokens {
        return Err(error(*i, tokens, ErrorKind::ExpectStr(Expected::SemicolonOrLeftBrace)));
    }
    let initializer = parse_assign_initializer(i, tokens)?;
    let first = InitDeclarator { declarator, initializer };
    let mut v: Vec<InitDeclarator> = Vec::new();
    v.push(first);
    proof {
        let seed = tokens@[decl_end];
        assert(init_declarator_matches(tokens@, *old(i) + 1, *i as int, v@[0]));
        assert(v@ =~= seq![v@[0]]);
        assert(init_decls_match(tokens@, *old(i) + 1, *i as int, v@));
    }
    loop
        invariant
            spec_parse_external_declaration(tokens@, *old(i) as int) == spec_parse_decl_tail(tokens@, *i as int),
            n_tokens == tokens@.len(),
            (*old(i) as int) < *i as int <= tokens@.len(),
            (*old(i) as int) < tokens@.len() && (tokens@[*old(i) as int].kind matches
                TokenKind::Qualifier(_)),
            v@.len() > 0,
            init_decls_match(tokens@, *old(i) + 1, *i as int, v@),
        ensures
            *i as int == tokens@.len() || tokens@[*i as int].kind != TokenKind::Comma,
        decreases tokens@.len() - *i,
    {
        let again = if *i < n_tokens {
            match &tokens[*i].kind {
                TokenKind::Comma => true,
                _ => false,
            }
        } else {
            false
        };
        if !again {
            break;
        }
        let ghost opidx: int = *i as int;
        let ghost pre_ids: Seq<InitDeclarator> = v@;
        *i = *i + 1;
        let item = parse_init_declarator(i, tokens)?;
        v.push(item);
        proof {
            assert(v@.drop_last() =~= pre_ids);
            assert(init_declarator_matches(tokens@, opidx + 1, *i as int, v@.last()));
            assert(init_decls_match(tokens@, *old(i) + 1, opidx, v@.drop_last()));
            assert(init_decls_match(tokens@, *old(i) + 1, *i as int, v@));
        }
    }
    parse_left(i, tokens, ';')?;
    let ed = ExternalDeclaration::Declaration(
        Declaration { declaration_specifier: specifier, init_declarator_list: InitDeclaratorList(v) },
    );
    proof {
        match &ed {
            ExternalDeclaration::Declaration(d) => {
                assert(decl_matches(tokens@, *old(i) as int, *i as int, *d));
            },
            _ => {},
        }
        assert(ext_decl_matches(tokens@, *old(i) as int, *i as int, ed));
    }
    Ok(ed)
}

/// A declaration: a specifier, a non-empty init-declarator list, and `;`;
/// the result carries exactly the specifier of the qualifier token at the
/// cursor.
pub fn parse_declaration(i: &mut usize, tokens: &Vec<Token>) -> (r: Result<Declaration, Error>)
    requires
        *old(i) <= tokens@.len(),
    ensures
        *old(i) <= *final(i) <= tokens@.len(),
        r is Err ==> delimiter_policy(r->Err_0),
        r is Ok ==> *old(i) < *final(i),
        r is Ok ==> (tokens@[*old(i) as int].kind matches TokenKind::Qualifier(q)
            && r->Ok_0.declaration_specifier == DeclarationSpecifier::TypeSpecifier(
            specifier_of(q),
        ) && r->Ok_0.init_declarator_list.0@.len() > 0),
        r is Ok ==> decl_matches(tokens@, *old(i) as int, *final(i) as int, r->Ok_0),
        *old(i) == tokens@.len() || !(tokens@[*old(i) as int].kind matches TokenKind::Qualifier(
            _,
        )) ==> r is Err && *final(i) == *old(i) && r->Err_0 == (Error {
            pos: err_pos(tokens@, *old(i) as int),
            error_kind: ErrorKind::ExpectDeclarationSpecifier,
        }),
        r is Ok ==> spec_parse_declaration(tokens@, *old(i) as int) == Ok::<int, Error>(*final(i) as int),
        r is Err ==> spec_parse_declaration(tokens@, *old(i) as int) == Err::<int, Error>(r->Err_0),
    decreases tokens@.len() - *i, 74int,
{
    let n_tokens = tokens.len();
    let declaration_specifier = parse_declaration_specifier(i, tokens)?;
    let first = parse_init_declarator(i, tokens)?;
    let mut v: Vec<InitDeclarator> = Vec::new();
    v.push(first);
    proof {
        assert(v@ =~= seq![v@[0]]);
        assert(init_decls_match(tokens@, *old(i) + 1, *i as int, v@));
    }
    loop
        invariant
            spec_parse_declaration(tokens@, *old(i) as int) == spec_parse_decl_tail(tokens@, *i as int),
            n_tokens == tokens@.len(),
            (*old(i) as int) + 1 <= *i as int <= tokens@.len(),
            (*old(i) as int) < tokens@.len() && (tokens@[*old(i) as int].kind matches
                TokenKind::Qualifier(_)),
            v@.len() > 0,
            init_decls_match(tokens@, *old(i) + 1, *i as int, v@),
        ensures
            *i as int == tokens@.len() || tokens@[*i as int].kind != TokenKind::Comma,
        decreases tokens@.len() - *i,
    {
        let again = if *i < n_tokens {
            match &tokens[*i].kind {
                TokenKind::Comma => true,
                _ => false,
            }
        } else {
            false
        };
        if !again {
            break;
        }
        let ghost opidx: int = *i as int;
        let ghost pre_ids: Seq<InitDeclarator> = v@;
        *i = *i + 1;
        let item = parse_init_declarator(i, tokens)?;
        v.push(item);
        proof {
            assert(v@.drop_last() =~= pre_ids);
            assert(init_declarator_matches(tokens@, opidx + 1, *i as int, v@.last()));
            assert(init_decls_match(tokens@, *old(i) + 1, opidx, v@.drop_last()));
            assert(init_decls_match(tokens@, *old(i) + 1, *i as int, v@));
        }
    }
    parse_left(i, tokens, ';')?;
    let d = Declaration { declaration_specifier, init_declarator_list: InitDeclaratorList(v) };
    proof {
        assert(decl_matches(tokens@, *old(i) as int, *i as int, d));
    }
    Ok(d)
}

/// An optional `= initializer` clause.
pub fn parse_assign_initializer(i: &mut usize, tokens: &Vec<Token>) -> (r: Result<
    Option<Initializer>,
    Error,
>)
    requires
        *old(i) <= tokens@.len(),
    ensures
        *old(i) <= *final(i) <= tokens@.len(),
        r is Err ==> delimiter_policy(r->Err_0),
        r is Ok ==> (match r->Ok_0 {
            None => *final(i) == *old(i) && (*old(i) == tokens@.len() || tokens@[*old(
                i,
            ) as int].kind != TokenKind::Relop(crate::token::RelopKind::Assign)),
            Some(init) => *old(i) < tokens@.len() && tokens@[*old(i) as int].kind
                == TokenKind::Relop(crate::token::RelopKind::Assign) && *old(i) + 1 < *final(i)
                && initializer_matches(tokens@, *old(i) + 1, *final(i) as int, init),
        }),
        r is Ok ==> spec_parse_assign_initializer(tokens@, *old(i) as int) == Ok::<int, Error>(*final(i) as int),
        r is Err ==> spec_parse_assign_initializer(tokens@, *old(i) as int) == Err::<int, Error>(r->Err_0),
    decreases tokens@.len() - *i, 85int,
{
    let is_assign = if *i < tokens.len() {
        match &tokens[*i].kind {
            TokenKind::Relop(crate::token::RelopKind::Assign) => true,
            _ => false,
        }
    } else {
        false
    };
    if is_assign {
        *i = *i + 1;
        let init = parse_initializer(i, tokens)?;
        Ok(Some(init))
    } else {
        Ok(None)
    }
}

/// A declarator with its optional `= initializer`.
pub fn parse_init_declarator(i: &mut usize, tokens: &Vec<Token>) -> (r: Result<
    InitDeclarator,
    Error,
>)
    requires
        *old(i) <= tokens@.len(),
    ensures
        *old(i) <= *final(i) <= tokens@.len(),
        r is Err ==> delimiter_policy(r->Err_0),
        r is Ok ==> *old(i) < *final(i),
        r is Ok ==> init_declarator_matches(tokens@, *old(i) as int, *final(i) as int, r->Ok_0),
        r is Ok ==> spec_parse_init_declarator(tokens@, *old(i) as int) == Ok::<int, Error>(*final(i) as int),
        r is Err ==> spec_parse_init_declarator(tokens@, *old(i) as int) == Err::<int, Error>(r->Err_0),
    decreases tokens@.len() - *i, 87int,
{
    let declarator = parse_declarator(i, tokens)?;
    let ghost decl_end: int = *i as int;
    let initializer = parse_assign_initializer(i, tokens)?;
    let id = InitDeclarator { declarator, initializer };
    proof {
        let seed = tokens@[decl_end];
        assert(init_declarator_matches(tokens@, *old(i) as int, *i as int, id));
    }
    Ok(id)
}

/// An initializer: a brace-enclosed non-empty list of initializers, or an
/// expression.
pub fn parse_initializer(i: &mut usize, tokens: &Vec<Token>) -> (r: Result<Initializer, Error>)
    requires
        *old(i) <= tokens@.len(),
    ensures
        *old(i) <= *final(i) <= tokens@.len(),
        r is Err ==> delimiter_policy(r->Err_0),
        r is Ok ==> *old(i) < *final(i),
        r is Ok ==> ((r->Ok_0 is List) <==> (*old(i) < tokens@.len() && tokens@[*old(
            i,
        ) as int].kind == TokenKind::LeftBrace)),
        r is Ok ==> initializer_matches(tokens@, *old(i) as int, *final(i) as int, r->Ok_0),
        r is Ok ==> spec_parse_initializer(tokens@, *old(i) as int) == Ok::<int, Error>(*final(i) as int),
        r is Err ==> spec_parse_initializer(tokens@, *old(i) as int) == Err::<int, Error>(r->Err_0),
    decreases tokens@.len() - *i, 86int,
{
    let n_tokens = tokens.len();
    let is_brace = if *i < n_tokens {
        match &tokens[*i].kind {
            TokenKind::LeftBrace => true,
            _ => false,
        }
    } else {
        false
    };
    if is_brace {
        let left_pos = tokens[*i].pos;
        *i = *i + 1;
        let first = parse_initializer(i, tokens)?;
        let mut v: Vec<Initializer> = Vec::new();
        v.push(first);
        proof {
            assert(v@ =~= seq![v@[0]]);
            assert(inits_match(tokens@, *old(i) + 1, *i as int, v@));
        }
        loop
            invariant
                spec_parse_initializer(tokens@, *old(i) as int) == spec_parse_inits_tail(tokens@, *i as int, left_pos),
                n_tokens == tokens@.len(),
                (*old(i) as int) + 1 < *i as int <= tokens@.len(),
                v@.len() >= 1,
                inits_match(tokens@, *old(i) + 1, *i as int, v@),
            ensures
                *i as int == tokens@.len() || tokens@[*i as int].kind != TokenKind::Comma,
            decreases tokens@.len() - *i,
        {
            let again = if *i < n_tokens {
                match &tokens[*i].kind {
                    TokenKind::Comma => true,
                    _ => false,
                }
            } else {
                false
            };
            if !again {
                break;
            }
            let ghost opidx: int = *i as int;
            let ghost pre_inits: Seq<Initializer> = v@;
            *i = *i + 1;
            let item = parse_initializer(i, tokens)?;
            v.push(item);
            proof {
                assert(v@.drop_last() =~= pre_inits);
                assert(initializer_matches(tokens@, opidx + 1, *i as int, v@.last()));
                assert(inits_match(tokens@, *old(i) + 1, opidx, v@.drop_last()));
                assert(inits_match(tokens@, *old(i) + 1, *i as int, v@));
            }
        }
        parse_right(i, tokens, '}', left_pos)?;
        let node = Initializer::List(v);
        proof {
            assert(initializer_matches(tokens@, *old(i) as int, *i as int, node));
        }
        Ok(node)
    } else {
        let expr = parse_expression(i, tokens)?;
        Ok(Initializer::Expression(expr))
    }
}

/// The first index at or after `i` holding something else than a `*` token.
pub open spec fn star_run_end(tokens: Seq<Token>, i: int) -> int
    decreases tokens.len() - i,
    when 0 <= i <= tokens.len()
{
    if i == tokens.len() {
        i
    } else if tokens[i].kind == TokenKind::Star {
        star_run_end(tokens, i + 1)
    } else {
        i
    }
}

proof fn lemma_star_run_end(tokens: Seq<Token>, i: int, j: int)
    requires
        0 <= i <= j <= tokens.len(),
        forall|k: int| i <= k < j ==> tokens[k].kind == TokenKind::Star,
        j == tokens.len() || tokens[j].kind != TokenKind::Star,
    ensures
        star_run_end(tokens, i) == j,
    decreases j - i,
{
    if i < j {
        lemma_star_run_end(tokens, i + 1, j);
    }
}

/// An optional run of `*` and a direct declarator; on success the pointer
/// depth is exactly the number of consecutive `*` tokens at the cursor.
pub fn parse_declarator(i: &mut usize, tokens: &Vec<Token>) -> (r: Result<Declarator, Error>)
    requires
        *old(i) <= tokens@.len(),
    ensures
        *old(i) <= *final(i) <= tokens@.len(),
        r is Err ==> delimiter_policy(r->Err_0),
        r is Ok ==> *old(i) < *final(i),
        r is Ok ==> r->Ok_0.pointer == Pointer(
            (star_run_end(tokens@, *old(i) as int) - *old(i)) as usize,
        ),
        r is Ok ==> declarator_matches(tokens@, *old(i) as int, *final(i) as int, r->Ok_0),
        *old(i) == tokens@.len() ==> r is Err && *final(i) == *old(i) && r->Err_0 == (Error {
            pos: err_pos(tokens@, *old(i) as int),
            error_kind: ErrorKind::ExpectDeclarator,
        }),
        r is Ok ==> spec_parse_declarator(tokens@, *old(i) as int) == Ok::<int, Error>(*final(i) as int),
        r is Err ==> spec_parse_declarator(tokens@, *old(i) as int) == Err::<int, Error>(r->Err_0),
    decreases tokens@.len() - *i, 84int,
{
    if *i >= tokens.len() {
        return Err(error(*i, tokens, ErrorKind::ExpectDeclarator));
    }
    let is_star = match &tokens[*i].kind {
        TokenKind::Star => true,
        _ => false,
    };
    let pointer = if is_star {
        let n = parse_pointer(i, tokens);
        proof {
            lemma_star_run_end(tokens@, *old(i) as int, *i as int);
        }
        n
    } else {
        0
    };
    let direct = parse_direct_declarator(i, tokens)?;
    let d = Declarator { pointer: Pointer(pointer), direct };
    proof {
        assert(declarator_matches(tokens@, *old(i) as int, *i as int, d));
    }
    Ok(d)
}

/// An identifier or a parenthesized nested declarator, then the trailing
/// array and function modifiers.
#[verifier::rlimit(100)]
pub fn parse_direct_declarator(i: &mut usize, tokens: &Vec<Token>) -> (r: Result<
    DirectDeclarator,
    Error,
>)
    requires
        *old(i) <= tokens@.len(),
    ensures
        *old(i) <= *final(i) <= tokens@.len(),
        r is Err ==> delimiter_policy(r->Err_0),
        r is Ok ==> *old(i) < *final(i),
        r is Ok ==> direct_matches(tokens@, *old(i) as int, *final(i) as int, r->Ok_0),
        *old(i) == tokens@.len() || !(tokens@[*old(i) as int].kind matches TokenKind::LeftParen
            || tokens@[*old(i) as int].kind matches TokenKind::Id(_)) ==> r is Err && *final(i)
            == *old(i) && r->Err_0 == (Error {
            pos: err_pos(tokens@, *old(i) as int),
            error_kind: ErrorKind::ExpectDirectDeclarator,
        }),
        r is Ok ==> spec_parse_direct_declarator(tokens@, *old(i) as int) == Ok::<int, Error>(*final(i) as int),
        r is Err ==> spec_parse_direct_declarator(tokens@, *old(i) as int) == Err::<int, Error>(r->Err_0),
    decreases tokens@.len() - *i, 83int,
{
    if *i >= tokens.len() {
        return Err(error(*i, tokens, ErrorKind::ExpectDirectDeclarator));
    }
    let token = &tokens[*i];
    let simple_declarator = match token.kind {
        TokenKind::LeftParen => {
            let left_pos = token.pos;
            *i = *i + 1;
            let inner = parse_declarator(i, tokens)?;
            let sd = SimpleDirectDeclarator::Declarator(Box::new(inner));
            parse_right(i, tokens, ')', left_pos)?;
            sd
        },
        TokenKind::Id(identifier) => {
            *i = *i + 1;
            SimpleDirectDeclarator::Identifier(identifier)
        },
        _ => {
            return Err(error(*i, tokens, ErrorKind::ExpectDirectDeclarator));
        },
    };
    let ghost simple_end: int = *i as int;
    let modifiers = parse_direct_declarator_modifiers(i, tokens)?;
    let dd = DirectDeclarator { simple_declarator, modifiers };
    proof {
        let seed = tokens@[simple_end];
        assert(modifiers_match(tokens@, simple_end, *i as int, dd.modifiers@));
        assert(direct_matches(tokens@, *old(i) as int, *i as int, dd));
    }
    Ok(dd)
}

/// Zero or more trailing `[bound]` and `(parameters)` modifiers, applied in
/// left-to-right encounter order.
pub fn parse_direct_declarator_modifiers(i: &mut usize, tokens: &Vec<Token>) -> (r: Result<
    Vec<DirectDeclaratorModifier>,
    Error,
>)
    requires
        *old(i) <= tokens@.len(),
    ensures
        *old(i) <= *final(i) <= tokens@.len(),
        r is Err ==> delimiter_policy(r->Err_0),
        r is Ok ==> modifiers_match(tokens@, *old(i) as int, *final(i) as int, r->Ok_0@),
        r is Ok ==> *final(i) == tokens@.len() || (tokens@[*final(i) as int].kind
            != TokenKind::LeftSqBracket && tokens@[*final(i) as int].kind != TokenKind::LeftParen),
        r is Ok ==> spec_parse_direct_declarator_modifiers(tokens@, *old(i) as int) == Ok::<int, Error>(*final(i) as int),
        r is Err ==> spec_parse_direct_declarator_modifiers(tokens@, *old(i) as int) == Err::<int, Error>(r->Err_0),
    decreases tokens@.len() - *i, 82int,
{
    let n_tokens = tokens.len();
    let mut ret: Vec<DirectDeclaratorModifier> = Vec::new();
    proof {
        assert(ret@ =~= Seq::<DirectDeclaratorModifier>::empty());
    }
    loop
        invariant
            spec_parse_direct_declarator_modifiers(tokens@, *old(i) as int) == spec_parse_direct_declarator_modifiers(tokens@, *i as int),
            n_tokens == tokens@.len(),
            (*old(i) as int) <= *i as int <= tokens@.len(),
            modifiers_match(tokens@, *old(i) as int, *i as int, ret@),
        ensures
            *i as int == tokens@.len() || (tokens@[*i as int].kind != TokenKind::LeftSqBracket && tokens@[*i as int].kind != TokenKind::LeftParen),
        decreases tokens@.len() - *i,
    {
        let next = if *i < n_tokens {
            match &tokens[*i].kind {
                TokenKind::LeftParen => PostfixNext::Call(tokens[*i].pos),
                TokenKind::LeftSqBracket => PostfixNext::Subscript(tokens[*i].pos),
                _ => PostfixNext::Done,
            }
        } else {
            PostfixNext::Done
        };
        match next {
            PostfixNext::Done => {
                break;
            },
            PostfixNext::Call(left_pos) => {
                let ghost opener: int = *i as int;
                let ghost pre_mods: Seq<DirectDeclaratorModifier> = ret@;
                *i = *i + 1;
                let parameter_list = parse_parameter_list(i, tokens)?;
                ret.push(DirectDeclaratorModifier::Function(parameter_list));
                parse_right(i, tokens, ')', left_pos)?;
                proof {
                    let seed = tokens@[opener];
                    assert(ret@ =~= pre_mods.push(ret@.last()));
                    assert(ret@.drop_last() =~= pre_mods);
                    assert(modifier_matches(tokens@, opener, *i as int, ret@.last()));
                    assert(modifiers_match(tokens@, *old(i) as int, opener, ret@.drop_last()));
                    assert(modifiers_match(tokens@, *old(i) as int, *i as int, ret@));
                }
            },
            PostfixNext::Subscript(left_pos) => {
                let ghost opener: int = *i as int;
                let ghost pre_mods: Seq<DirectDeclaratorModifier> = ret@;
                *i = *i + 1;
                let integer_constant = parse_integer_constant(i, tokens)?;
                ret.push(DirectDeclaratorModifier::Array(integer_constant));
                parse_right(i, tokens, ']', left_pos)?;
                proof {
                    let seed = tokens@[opener];
                    assert(ret@ =~= pre_mods.push(ret@.last()));
                    assert(ret@.drop_last() =~= pre_mods);
                    assert(modifier_matches(tokens@, opener, *i as int, ret@.last()));
                    assert(modifiers_match(tokens@, *old(i) as int, opener, ret@.drop_last()));
                    assert(modifiers_match(tokens@, *old(i) as int, *i as int, ret@));
                }
            },
        }
    }
    Ok(ret)
}

/// A non-empty comma-separated list of parameter declarations.
pub fn parse_parameter_list(i: &mut usize, tokens: &Vec<Token>) -> (r: Result<
    Vec<ParameterDeclaration>,
    Error,
>)
    requires
        *old(i) <= tokens@.len(),
    ensures
        *old(i) <= *final(i) <= tokens@.len(),
        r is Err ==> delimiter_policy(r->Err_0),
        r is Ok ==> *old(i) < *final(i),
        r is Ok ==> r->Ok_0@.len() > 0 && params_match(
            tokens@,
            *old(i) as int,
            *final(i) as int,
            r->Ok_0@,
        ),
        r is Ok ==> *final(i) == tokens@.len() || tokens@[*final(i) as int].kind
            != TokenKind::Comma,
        r is Ok ==> spec_parse_parameter_list(tokens@, *old(i) as int) == Ok::<int, Error>(*final(i) as int),
        r is Err ==> spec_parse_parameter_list(tokens@, *old(i) as int) == Err::<int, Error>(r->Err_0),
    decreases tokens@.len() - *i, 81int,
{
    let n_tokens = tokens.len();
    let first = parse_parameter_declaration(i, tokens)?;
    let mut v: Vec<ParameterDeclaration> = Vec::new();
    v.push(first);
    proof {
        assert(v@ =~= seq![v@[0]]);
        assert(params_match(tokens@, *old(i) as int, *i as int, v@));
    }
    loop
        invariant
            spec_parse_parameter_list(tokens@, *old(i) as int) == spec_parse_params_more(tokens@, *i as int),
            n_tokens == tokens@.len(),
            (*old(i) as int) < *i as int <= tokens@.len(),
            v@.len() >= 1,
            params_match(tokens@, *old(i) as int, *i as int, v@),
        ensures
            *i as int == tokens@.len() || tokens@[*i as int].kind != TokenKind::Comma,
        decreases tokens@.len() - *i,
    {
        let again = if *i < n_tokens {
            match &tokens[*i].kind {
                TokenKind::Comma => true,
                _ => false,
            }
        } else {
            false
        };
        if !again {
            break;
        }
        let ghost opidx: int = *i as int;
        let ghost pre_ps: Seq<ParameterDeclaration> = v@;
        *i = *i + 1;
        let item = parse_parameter_declaration(i, tokens)?;
        v.push(item);
        proof {
            assert(v@.drop_last() =~= pre_ps);
            assert(param_decl_matches(tokens@, opidx + 1, *i as int, v@.last()));
            assert(params_match(tokens@, *old(i) as int, opidx, v@.drop_last()));
            assert(params_match(tokens@, *old(i) as int, *i as int, v@));
        }
    }
    Ok(v)
}

/// A parameter: a declaration specifier and a declarator.
pub fn parse_parameter_declaration(i: &mut usize, tokens: &Vec<Token>) -> (r: Result<
    ParameterDeclaration,
    Error,
>)
    requires
        *old(i) <= tokens@.len(),
    ensures
        *old(i) <= *final(i) <= tokens@.len(),
        r is Err ==> delimiter_policy(r->Err_0),
        r is Ok ==> *old(i) < *final(i),
        r is Ok ==> param_decl_matches(tokens@, *old(i) as int, *final(i) as int, r->Ok_0),
        r is Ok ==> spec_parse_parameter_declaration(tokens@, *old(i) as int) == Ok::<int, Error>(*final(i) as int),
        r is Err ==> spec_parse_parameter_declaration(tokens@, *old(i) as int) == Err::<int, Error>(r->Err_0),
    decreases tokens@.len() - *i, 80int,
{
    let specifier = parse_declaration_specifier(i, tokens)?;
    let declarator = parse_declarator(i, tokens)?;
    let pd = ParameterDeclaration { specifier, declarator };
    proof {
        assert(param_decl_matches(tokens@, *old(i) as int, *i as int, pd));
    }
    Ok(pd)
}

/// Dispatches on the look-ahead token: compound, selection, iteration, jump
/// or expression statement; the statement's class is decided by that token
/// alone.
pub fn parse_statement(i: &mut usize, tokens: &Vec<Token>) -> (r: Result<Statement, Error>)
    requires
        *old(i) <= tokens@.len(),
    ensures
        *old(i) <= *final(i) <= tokens@.len(),
        r is Err ==> delimiter_policy(r->Err_0),
        r is Ok ==> *old(i) < *final(i),
        r is Ok ==> match tokens@[*old(i) as int].kind {
            TokenKind::LeftBrace => r->Ok_0 is Compound,
            TokenKind::If => r->Ok_0 is Selection,
            TokenKind::Do => r->Ok_0 is Iteration,
            TokenKind::For => r->Ok_0 is Iteration,
            TokenKind::While => r->Ok_0 is Iteration,
            TokenKind::Continue => r->Ok_0 is Jump,
            TokenKind::Break => r->Ok_0 is Jump,
            TokenKind::Return => r->Ok_0 is Jump,
            _ => r->Ok_0 is Expression,
        },
        r is Ok ==> stmt_matches(tokens@, *old(i) as int, *final(i) as int, r->Ok_0),
        *old(i) == tokens@.len() ==> r is Err && *final(i) == *old(i) && r->Err_0 == (Error {
            pos: err_pos(tokens@, *old(i) as int),
            error_kind: ErrorKind::ExpectStatement,
        }),
        r is Ok ==> spec_parse_statement(tokens@, *old(i) as int) == Ok::<int, Error>(*final(i) as int),
        r is Err ==> spec_parse_statement(tokens@, *old(i) as int) == Err::<int, Error>(r->Err_0),
    decreases tokens@.len() - *i, 73int,
{
    if *i >= tokens.len() {
        return Err(error(*i, tokens, ErrorKind::ExpectStatement));
    }
    match tokens[*i].kind {
        TokenKind::LeftBrace => {
            let c = parse_compound_statement(i, tokens)?;
            let st = Statement::Compound(c);
            proof {
                assert(stmt_matches(tokens@, *old(i) as int, *i as int, st));
            }
            Ok(st)
        },
        TokenKind::If => {
            let s = parse_selection_statement(i, tokens)?;
            Ok(Statement::Selection(s))
        },
        TokenKind::Do | TokenKind::For | TokenKind::While => {
            let s = parse_iteration_statement(i, tokens)?;
            Ok(Statement::Iteration(s))
        },
        TokenKind::Continue | TokenKind::Break | TokenKind::Return => {
            let s = parse_jump_statement(i, tokens)?;
            Ok(Statement::Jump(s))
        },
        _ => {
            let e = parse_expression_statement(i, tokens)?;
            let st = Statement::Expression(e);
            proof {
                assert(stmt_matches(tokens@, *old(i) as int, *i as int, st));
            }
            Ok(st)
        },
    }
}

/// A `{ ... }` block of declarations and statements; a missing closing
/// brace fails with `UnmatchedParenthesis` at the opening brace's position.
pub fn parse_compound_statement(i: &mut usize, tokens: &Vec<Token>) -> (r: Result<
    CompoundStatement,
    Error,
>)
    requires
        *old(i) <= tokens@.len(),
    ensures
        *old(i) <= *final(i) <= tokens@.len(),
        r is Err ==> delimiter_policy(r->Err_0),
        r is Ok ==> *old(i) < *final(i),
        r is Ok ==> compound_matches(tokens@, *old(i) as int, *final(i) as int, r->Ok_0),
        *old(i) == tokens@.len() || tokens@[*old(i) as int].kind != TokenKind::LeftBrace ==> r
            is Err && *final(i) == *old(i) && r->Err_0 == (Error {
            pos: err_pos(tokens@, *old(i) as int),
            error_kind: ErrorKind::ExpectCompoundStatement,
        }),
        r is Ok ==> spec_parse_compound_statement(tokens@, *old(i) as int) == Ok::<int, Error>(*final(i) as int),
        r is Err ==> spec_parse_compound_statement(tokens@, *old(i) as int) == Err::<int, Error>(r->Err_0),
    decreases tokens@.len() - *i, 72int,
{
    let n_tokens = tokens.len();
    if *i >= n_tokens {
        return Err(error(*i, tokens, ErrorKind::ExpectCompoundStatement));
    }
    let is_brace = match &tokens[*i].kind {
        TokenKind::LeftBrace => true,
        _ => false,
    };
    if !is_brace {
        return Err(error(*i, tokens, ErrorKind::ExpectCompoundStatement));
    }
    let left_pos = tokens[*i].pos;
    *i = *i + 1;
    let mut list: Vec<BlockItem> = Vec::new();
    loop
        invariant_except_break
            spec_parse_compound_statement(tokens@, *old(i) as int) == spec_parse_items_more(tokens@, *i as int, left_pos),
            block_items_match(tokens@, *old(i) + 1, *i as int, list@),
        invariant
            n_tokens == tokens@.len(),
            (*old(i) as int) < *i as int <= tokens@.len(),
            (*old(i) as int) < tokens@.len() && tokens@[*old(i) as int].kind
                == TokenKind::LeftBrace,
        ensures
            spec_parse_compound_statement(tokens@, *old(i) as int) == Ok::<int, Error>(
                *i as int,
            ),
            (*old(i) as int) + 1 < *i as int <= tokens@.len(),
            tokens@[*i as int - 1].kind == TokenKind::RightBrace,
            block_items_match(tokens@, *old(i) + 1, *i as int - 1, list@),
        decreases tokens@.len() - *i,
    {
        if *i >= n_tokens {
            return Err(
                Error { pos: left_pos, error_kind: ErrorKind::UnmatchedParenthesis(left_pos) },
            );
        }
        let is_close = match &tokens[*i].kind {
            TokenKind::RightBrace => true,
            _ => false,
        };
        if is_close {
            *i = *i + 1;
            break;
        }
        let ghost pre: int = *i as int;
        let ghost pre_items: Seq<BlockItem> = list@;
        let item = parse_block_item(i, tokens)?;
        list.push(item);
        proof {
            assert(list@.drop_last() =~= pre_items);
            assert(block_item_matches(tokens@, pre, *i as int, list@.last()));
            assert(block_items_match(tokens@, *old(i) + 1, pre, list@.drop_last()));
            assert(block_items_match(tokens@, *old(i) + 1, *i as int, list@));
        }
    }
    let c = CompoundStatement(list);
    proof {
        assert(compound_matches(tokens@, *old(i) as int, *i as int, c));
    }
    Ok(c)
}

/// One item of a compound statement: a declaration when a type qualifier
/// follows, else a statement.
fn parse_block_item(i: &mut usize, tokens: &Vec<Token>) -> (r: Result<BlockItem, Error>)
    requires
        *old(i) < tokens@.len(),
    ensures
        *old(i) <= *final(i) <= tokens@.len(),
        r is Err ==> delimiter_policy(r->Err_0),
        r is Ok ==> *old(i) < *final(i),
        r is Ok ==> block_item_matches(tokens@, *old(i) as int, *final(i) as int, r->Ok_0),
        r is Ok ==> spec_parse_block_item(tokens@, *old(i) as int) == Ok::<int, Error>(*final(i) as int),
        r is Err ==> spec_parse_block_item(tokens@, *old(i) as int) == Err::<int, Error>(r->Err_0),
    decreases tokens@.len() - *i, 75int,
{
    let is_qualifier = match &tokens[*i].kind {
        TokenKind::Qualifier(_) => true,
        _ => false,
    };
    if is_qualifier {
        let d = parse_declaration(i, tokens)?;
        let it = BlockItem::Declaration(d);
        proof {
            assert(block_item_matches(tokens@, *old(i) as int, *i as int, it));
        }
        Ok(it)
    } else {
        let s = parse_statement(i, tokens)?;
        let it = BlockItem::Statement(s);
        proof {
            assert(block_item_matches(tokens@, *old(i) as int, *i as int, it));
        }
        Ok(it)
    }
}

/// An expression statement: a bare `;` yields the empty statement, anything
/// else is an expression followed by `;`.
pub fn parse_expression_statement(i: &mut usize, tokens: &Vec<Token>) -> (r: Result<
    Option<Expression>,
    Error,
>)
    requires
        *old(i) <= tokens@.len(),
    ensures
        *old(i) <= *final(i) <= tokens@.len(),
        r is Err ==> delimiter_policy(r->Err_0),
        r is Ok ==> *old(i) < *final(i),
        r is Ok ==> ((r->Ok_0 is None) <==> (*old(i) < tokens@.len() && tokens@[*old(
            i,
        ) as int].kind == TokenKind::Semicolon)),
        r is Ok && r->Ok_0 is None ==> *final(i) == *old(i) + 1,
        r is Ok ==> opt_expr_stmt_matches(tokens@, *old(i) as int, *final(i) as int, r->Ok_0),
        r is Ok ==> spec_parse_expression_statement(tokens@, *old(i) as int) == Ok::<int, Error>(*final(i) as int),
        r is Err ==> spec_parse_expression_statement(tokens@, *old(i) as int) == Err::<int, Error>(r->Err_0),
    decreases tokens@.len() - *i, 72int,
{
    let is_semicolon = if *i < tokens.len() {
        match &tokens[*i].kind {
            TokenKind::Semicolon => true,
            _ => false,
        }
    } else {
        false
    };
    if is_semicolon {
        *i = *i + 1;
        Ok(None)
    } else {
        let e = parse_expression(i, tokens)?;
        parse_left(i, tokens, ';')?;
        proof {
            assert(opt_expr_stmt_matches(tokens@, *old(i) as int, *i as int, Some(e)));
        }
        Ok(Some(e))
    }
}

/// `if (condition) consequent` with an optional `else alternative`.
fn parse_selection_statement(i: &mut usize, tokens: &Vec<Token>) -> (r: Result<
    SelectionStatement,
    Error,
>)
    requires
        *old(i) < tokens@.len(),
        tokens@[*old(i) as int].kind == TokenKind::If,
    ensures
        *old(i) <= *final(i) <= tokens@.len(),
        r is Err ==> delimiter_policy(r->Err_0),
        r is Ok ==> *old(i) < *final(i),
        r is Ok ==> stmt_matches(
            tokens@,
            *old(i) as int,
            *final(i) as int,
            Statement::Selection(r->Ok_0),
        ),
        r is Ok ==> spec_parse_selection_statement(tokens@, *old(i) as int) == Ok::<int, Error>(*final(i) as int),
        r is Err ==> spec_parse_selection_statement(tokens@, *old(i) as int) == Err::<int, Error>(r->Err_0),
    decreases tokens@.len() - *i, 72int,
{
    let _n: usize = tokens.len();
    *i = *i + 1;
    let left_pos = parse_left(i, tokens, '(')?;
    let condition = parse_expression(i, tokens)?;
    let ghost m1: int = *i as int;
    parse_right(i, tokens, ')', left_pos)?;
    let consequent_stmt = parse_statement(i, tokens)?;
    let consequent = Box::new(consequent_stmt);
    let ghost m2: int = *i as int;
    let is_else = if *i < tokens.len() {
        match &tokens[*i].kind {
            TokenKind::Else => true,
            _ => false,
        }
    } else {
        false
    };
    let alternative = if is_else {
        *i = *i + 1;
        let alt_stmt = parse_statement(i, tokens)?;
        Some(Box::new(alt_stmt))
    } else {
        None
    };
    let sel = SelectionStatement { condition, consequent, alternative };
    proof {
        let seed1 = tokens@[m1];
        let seed2 = tokens@[m2];
        assert(stmt_matches(tokens@, *old(i) as int, *i as int, Statement::Selection(sel)));
    }
    Ok(sel)
}

/// Dispatches a `while`, `for` or `do` statement.
fn parse_iteration_statement(i: &mut usize, tokens: &Vec<Token>) -> (r: Result<
    IterationStatement,
    Error,
>)
    requires
        *old(i) < tokens@.len(),
        tokens@[*old(i) as int].kind == TokenKind::While || tokens@[*old(i) as int].kind
            == TokenKind::For || tokens@[*old(i) as int].kind == TokenKind::Do,
    ensures
        *old(i) <= *final(i) <= tokens@.len(),
        r is Err ==> delimiter_policy(r->Err_0),
        r is Ok ==> *old(i) < *final(i),
        r is Ok ==> match tokens@[*old(i) as int].kind {
            TokenKind::While => r->Ok_0 is While,
            TokenKind::For => r->Ok_0 is For,
            _ => r->Ok_0 is Do,
        },
        r is Ok ==> stmt_matches(
            tokens@,
            *old(i) as int,
            *final(i) as int,
            Statement::Iteration(r->Ok_0),
        ),
        r is Ok ==> spec_parse_iteration_statement(tokens@, *old(i) as int) == Ok::<int, Error>(*final(i) as int),
        r is Err ==> spec_parse_iteration_statement(tokens@, *old(i) as int) == Err::<int, Error>(r->Err_0),
    decreases tokens@.len() - *i, 72int,
{
    match tokens[*i].kind {
        TokenKind::While => {
            let s = parse_while_statement(i, tokens)?;
            Ok(IterationStatement::While(s))
        },
        TokenKind::For => {
            let s = parse_for_statement(i, tokens)?;
            Ok(IterationStatement::For(s))
        },
        _ => {
            let s = parse_do_statement(i, tokens)?;
            Ok(IterationStatement::Do(s))
        },
    }
}

/// `while (condition) body`.
fn parse_while_statement(i: &mut usize, tokens: &Vec<Token>) -> (r: Result<WhileStatement, Error>)
    requires
        *old(i) < tokens@.len(),
        tokens@[*old(i) as int].kind == TokenKind::While,
    ensures
        *old(i) <= *final(i) <= tokens@.len(),
        r is Err ==> delimiter_policy(r->Err_0),
        r is Ok ==> *old(i) < *final(i),
        r is Ok ==> stmt_matches(
            tokens@,
            *old(i) as int,
            *final(i) as int,
            Statement::Iteration(IterationStatement::While(r->Ok_0)),
        ),
        r is Ok ==> spec_parse_while_statement(tokens@, *old(i) as int) == Ok::<int, Error>(*final(i) as int),
        r is Err ==> spec_parse_while_statement(tokens@, *old(i) as int) == Err::<int, Error>(r->Err_0),
    decreases tokens@.len() - *i, 71int,
{
    let _n: usize = tokens.len();
    *i = *i + 1;
    let left_pos = parse_left(i, tokens, '(')?;
    let condition = parse_expression(i, tokens)?;
    let ghost m: int = *i as int;
    parse_right(i, tokens, ')', left_pos)?;
    let body_stmt = parse_statement(i, tokens)?;
    let body = Box::new(body_stmt);
    let w = WhileStatement { condition, body };
    proof {
        let seed = tokens@[m];
        assert(stmt_matches(
            tokens@,
            *old(i) as int,
            *i as int,
            Statement::Iteration(IterationStatement::While(w)),
        ));
    }
    Ok(w)
}

/// C's three-clause `for (init; condition; update) body`; the initializer
/// clause is a declaration when a type qualifier follows, else an expression
/// statement; the update is omitted only before the closing parenthesis.
fn parse_for_statement(i: &mut usize, tokens: &Vec<Token>) -> (r: Result<ForStatement, Error>)
    requires
        *old(i) < tokens@.len(),
        tokens@[*old(i) as int].kind == TokenKind::For,
    ensures
        *old(i) <= *final(i) <= tokens@.len(),
        r is Err ==> delimiter_policy(r->Err_0),
        r is Ok ==> *old(i) < *final(i),
        r is Ok ==> stmt_matches(
            tokens@,
            *old(i) as int,
            *final(i) as int,
            Statement::Iteration(IterationStatement::For(r->Ok_0)),
        ),
        r is Ok ==> spec_parse_for_statement(tokens@, *old(i) as int) == Ok::<int, Error>(*final(i) as int),
        r is Err ==> spec_parse_for_statement(tokens@, *old(i) as int) == Err::<int, Error>(r->Err_0),
    decreases tokens@.len() - *i, 71int,
{
    let _n: usize = tokens.len();
    *i = *i + 1;
    let left_pos = parse_left(i, tokens, '(')?;
    if *i >= tokens.len() {
        return Err(error(*i, tokens, ErrorKind::ExpectForInitialization));
    }
    let is_qualifier = match &tokens[*i].kind {
        TokenKind::Qualifier(_) => true,
        _ => false,
    };
    let initialization = if is_qualifier {
        ForInitialization::Declaration(parse_declaration(i, tokens)?)
    } else {
        ForInitialization::Expression(parse_expression_statement(i, tokens)?)
    };
    let ghost m1: int = *i as int;
    let condition = parse_expression_statement(i, tokens)?;
    let ghost m2: int = *i as int;
    if *i >= tokens.len() {
        return Err(Error { pos: left_pos, error_kind: ErrorKind::UnmatchedParenthesis(left_pos) });
    }
    let is_close = match &tokens[*i].kind {
        TokenKind::RightParen => true,
        _ => false,
    };
    let update = if is_close {
        None
    } else {
        Some(parse_expression(i, tokens)?)
    };
    let ghost m3: int = *i as int;
    parse_right(i, tokens, ')', left_pos)?;
    let body_stmt = parse_statement(i, tokens)?;
    let body = Box::new(body_stmt);
    let f = ForStatement { initialization, condition, update, body };
    proof {
        let seed1 = tokens@[m1];
        let seed2 = tokens@[m2];
        let seed3 = tokens@[m3];
        assert(stmt_matches(
            tokens@,
            *old(i) as int,
            *i as int,
            Statement::Iteration(IterationStatement::For(f)),
        ));
    }
    Ok(f)
}

/// `do body while (condition)`.
#[verifier::rlimit(60)]
fn parse_do_statement(i: &mut usize, tokens: &Vec<Token>) -> (r: Result<DoStatement, Error>)
    requires
        *old(i) < tokens@.len(),
        tokens@[*old(i) as int].kind == TokenKind::Do,
    ensures
        *old(i) <= *final(i) <= tokens@.len(),
        r is Err ==> delimiter_policy(r->Err_0),
        r is Ok ==> *old(i) < *final(i),
        r is Ok ==> stmt_matches(
            tokens@,
            *old(i) as int,
            *final(i) as int,
            Statement::Iteration(IterationStatement::Do(r->Ok_0)),
        ),
        r is Ok ==> spec_parse_do_statement(tokens@, *old(i) as int) == Ok::<int, Error>(*final(i) as int),
        r is Err ==> spec_parse_do_statement(tokens@, *old(i) as int) == Err::<int, Error>(r->Err_0),
    decreases tokens@.len() - *i, 71int,
{
    let _n: usize = tokens.len();
    *i = *i + 1;
    let body_stmt = parse_statement(i, tokens)?;
    let body = Box::new(body_stmt);
    let ghost mw: int = *i as int;
    let is_while = if *i < tokens.len() {
        match &tokens[*i].kind {
            TokenKind::While => true,
            _ => false,
        }
    } else {
        false
    };
    if !is_while {
        return Err(error(*i, tokens, ErrorKind::ExpectStr(Expected::KwWhile)));
    }
    *i = *i + 1;
    let left_pos = parse_left(i, tokens, '(')?;
    let condition = parse_expression(i, tokens)?;
    parse_right(i, tokens, ')', left_pos)?;
    let d = DoStatement { body, condition };
    proof {
        let seed = tokens@[mw];
        assert(stmt_matches(
            tokens@,
            *old(i) as int,
            *i as int,
            Statement::Iteration(IterationStatement::Do(d)),
        ));
    }
    Ok(d)
}

/// `continue ;`, `break ;`, or `return` with an optional expression and `;`.
fn parse_jump_statement(i: &mut usize, tokens: &Vec<Token>) -> (r: Result<JumpStatement, Error>)
    requires
        *old(i) < tokens@.len(),
        tokens@[*old(i) as int].kind == TokenKind::Continue || tokens@[*old(i) as int].kind
            == TokenKind::Break || tokens@[*old(i) as int].kind == TokenKind::Return,
    ensures
        *old(i) <= *final(i) <= tokens@.len(),
        r is Err ==> delimiter_policy(r->Err_0),
        r is Ok ==> *old(i) < *final(i),
        r is Ok ==> match tokens@[*old(i) as int].kind {
            TokenKind::Continue => r->Ok_0 is Continue,
            TokenKind::Break => r->Ok_0 is Break,
            _ => r->Ok_0 is Return,
        },
        r is Ok ==> stmt_matches(
            tokens@,
            *old(i) as int,
            *final(i) as int,
            Statement::Jump(r->Ok_0),
        ),
        r is Ok ==> spec_parse_jump_statement(tokens@, *old(i) as int) == Ok::<int, Error>(*final(i) as int),
        r is Err ==> spec_parse_jump_statement(tokens@, *old(i) as int) == Err::<int, Error>(r->Err_0),
    decreases tokens@.len() - *i, 72int,
{
    let _n: usize = tokens.len();
    match tokens[*i].kind {
        TokenKind::Continue => {
            *i = *i + 1;
            parse_left(i, tokens, ';')?;
            Ok(JumpStatement::Continue)
        },
        TokenKind::Break => {
            *i = *i + 1;
            parse_left(i, tokens, ';')?;
            Ok(JumpStatement::Break)
        },
        _ => {
            *i = *i + 1;
            let e = parse_expression_statement(i, tokens)?;
            Ok(JumpStatement::Return(e))
        },
    }
}

/// The unary prefix operator a token stands for, if any.
pub open spec fn spec_unary_operator(k: TokenKind) -> Option<UnaryOperator> {
    match k {
        TokenKind::BitAnd => Some(UnaryOperator::Address),
        TokenKind::Star => Some(UnaryOperator::Indirection),
        TokenKind::Plus => Some(UnaryOperator::Positive),
        TokenKind::Minus => Some(UnaryOperator::Negative),
        TokenKind::Not => Some(UnaryOperator::LogicalNot),
        TokenKind::BitNot => Some(UnaryOperator::Not),
        _ => None,
    }
}

fn unary_operator_of(k: &TokenKind) -> (r: Option<UnaryOperator>)
    ensures
        r == spec_unary_operator(*k),
{
    match k {
        TokenKind::BitAnd => Some(UnaryOperator::Address),
        TokenKind::Star => Some(UnaryOperator::Indirection),
        TokenKind::Plus => Some(UnaryOperator::Positive),
        TokenKind::Minus => Some(UnaryOperator::Negative),
        TokenKind::Not => Some(UnaryOperator::LogicalNot),
        TokenKind::BitNot => Some(UnaryOperator::Not),
        _ => None,
    }
}

/// The comma operator: left-associative sequencing, the lowest tier.
pub fn parse_expression(i: &mut usize, tokens: &Vec<Token>) -> (r: Result<Expression, Error>)
    requires
        *old(i) <= tokens@.len(),
    ensures
        *old(i) <= *final(i) <= tokens@.len(),
        r is Err ==> delimiter_policy(r->Err_0),
        r is Ok ==> *old(i) < *final(i),
        r is Ok ==> expr_matches(tokens@, *old(i) as int, *final(i) as int, r->Ok_0),
        r is Ok ==> *final(i) == tokens@.len() || tokens@[*final(i) as int].kind
            != TokenKind::Comma,
        r is Ok ==> spec_parse_expression(tokens@, *old(i) as int) == Ok::<int, Error>(*final(i) as int),
        r is Err ==> spec_parse_expression(tokens@, *old(i) as int) == Err::<int, Error>(r->Err_0),
    decreases tokens@.len() - *i, 60int,
{
    let n_tokens = tokens.len();
    let mut ret = parse_assignment_expression(i, tokens)?;
    loop
        invariant
            n_tokens == tokens@.len(),
            (*old(i) as int) < *i as int <= tokens@.len(),
            expr_matches(tokens@, *old(i) as int, *i as int, *ret),
            spec_parse_expression(tokens@, *old(i) as int) == spec_parse_expression_more(tokens@, *i as int),
        ensures
            *i as int == tokens@.len() || tokens@[*i as int].kind != TokenKind::Comma,
        decreases tokens@.len() - *i,
    {
        let again = if *i < n_tokens {
            match &tokens[*i].kind {
                TokenKind::Comma => true,
                _ => false,
            }
        } else {
            false
        };
        if !again {
            break;
        }
        let ghost opidx: int = *i as int;
        let ghost lhs: Expression = *ret;
        *i = *i + 1;
        let right = parse_assignment_expression(i, tokens)?;
        let ghost rhs: Expression = *right;
        ret = Box::new(
            Expression::Binary(
                BinaryExpression { operator: BinaryOperator::Comma, left: ret, right },
            ),
        );
        proof {
            assert(((*ret) matches Expression::Binary(b) && *b.left == lhs && *b.right == rhs));
            assert(expr_matches(tokens@, *old(i) as int, *i as int, *ret));
        }
    }
    Ok(*ret)
}

/// Right-associative assignment: speculatively parses a unary expression and
/// commits only when `=` follows; otherwise the cursor is rewound and the
/// logical-or ladder is used.
pub fn parse_assignment_expression(i: &mut usize, tokens: &Vec<Token>) -> (r: Result<
    Box<Expression>,
    Error,
>)
    requires
        *old(i) <= tokens@.len(),
    ensures
        *old(i) <= *final(i) <= tokens@.len(),
        r is Err ==> delimiter_policy(r->Err_0),
        r is Ok ==> *old(i) < *final(i),
        r is Ok ==> assign_matches(tokens@, *old(i) as int, *final(i) as int, *r->Ok_0),
        r is Ok ==> spec_parse_assignment_expression(tokens@, *old(i) as int) == Ok::<int, Error>(*final(i) as int),
        r is Err ==> spec_parse_assignment_expression(tokens@, *old(i) as int) == Err::<int, Error>(r->Err_0),
    decreases tokens@.len() - *i, 59int,
{
    let i_saved = *i;
    match parse_unary_expression(i, tokens) {
        Ok(left) => {
            let is_assign = if *i < tokens.len() {
                match &tokens[*i].kind {
                    TokenKind::Relop(crate::token::RelopKind::Assign) => true,
                    _ => false,
                }
            } else {
                false
            };
            if is_assign {
                let ghost opidx: int = *i as int;
                let ghost lhs: Expression = *left;
                *i = *i + 1;
                let right = parse_assignment_expression(i, tokens)?;
                let ghost rhs: Expression = *right;
                let node = Box::new(Expression::Assignment(AssignmentExpression { left, right }));
                proof {
                    assert(i_saved < opidx && opidx < *i as int && tokens@[opidx].kind
                        == TokenKind::Relop(crate::token::RelopKind::Assign) && unary_matches(
                        tokens@,
                        i_saved as int,
                        opidx,
                        lhs,
                    ) && expr_matches(tokens@, opidx + 1, *i as int, rhs));
                    assert(assign_matches(tokens@, i_saved as int, *i as int, *node));
                }
                Ok(node)
            } else {
                *i = i_saved;
                parse_logical_or_expression(i, tokens)
            }
        },
        Err(e) => Err(e),
    }
}

/// Left-associative `||`.
pub fn parse_logical_or_expression(i: &mut usize, tokens: &Vec<Token>) -> (r: Result<
    Box<Expression>,
    Error,
>)
    requires
        *old(i) <= tokens@.len(),
    ensures
        *old(i) <= *final(i) <= tokens@.len(),
        r is Err ==> delimiter_policy(r->Err_0),
        r is Ok ==> *old(i) < *final(i),
        r is Ok ==> lor_matches(tokens@, *old(i) as int, *final(i) as int, *r->Ok_0),
        r is Ok ==> *final(i) == tokens@.len() || tokens@[*final(i) as int].kind != TokenKind::Or,
        r is Ok ==> spec_parse_logical_or_expression(tokens@, *old(i) as int) == Ok::<int, Error>(*final(i) as int),
        r is Err ==> spec_parse_logical_or_expression(tokens@, *old(i) as int) == Err::<int, Error>(r->Err_0),
    decreases tokens@.len() - *i, 58int,
{
    let n_tokens = tokens.len();
    let mut ret = parse_logical_and_expression(i, tokens)?;
    loop
        invariant
            n_tokens == tokens@.len(),
            (*old(i) as int) < *i as int <= tokens@.len(),
            lor_matches(tokens@, *old(i) as int, *i as int, *ret),
            spec_parse_logical_or_expression(tokens@, *old(i) as int) == spec_parse_logical_or_more(tokens@, *i as int),
        ensures
            *i as int == tokens@.len() || tokens@[*i as int].kind != TokenKind::Or,
        decreases tokens@.len() - *i,
    {
        let again = if *i < n_tokens {
            match &tokens[*i].kind {
                TokenKind::Or => true,
                _ => false,
            }
        } else {
            false
        };
        if !again {
            break;
        }
        let ghost opidx: int = *i as int;
        let ghost lhs: Expression = *ret;
        *i = *i + 1;
        let right = parse_logical_and_expression(i, tokens)?;
        let ghost rhs: Expression = *right;
        ret = Box::new(
            Expression::Binary(
                BinaryExpression { operator: BinaryOperator::LogicalOr, left: ret, right },
            ),
        );
        proof {
            assert(((*ret) matches Expression::Binary(b) && *b.left == lhs && *b.right == rhs));
            assert(lor_matches(tokens@, *old(i) as int, *i as int, *ret));
        }
    }
    Ok(ret)
}

/// Left-associative `&&`.
pub fn parse_logical_and_expression(i: &mut usize, tokens: &Vec<Token>) -> (r: Result<
    Box<Expression>,
    Error,
>)
    requires
        *old(i) <= tokens@.len(),
    ensures
        *old(i) <= *final(i) <= tokens@.len(),
        r is Err ==> delimiter_policy(r->Err_0),
        r is Ok ==> *old(i) < *final(i),
        r is Ok ==> land_matches(tokens@, *old(i) as int, *final(i) as int, *r->Ok_0),
        r is Ok ==> *final(i) == tokens@.len() || tokens@[*final(i) as int].kind != TokenKind::And,
        r is Ok ==> spec_parse_logical_and_expression(tokens@, *old(i) as int) == Ok::<int, Error>(*final(i) as int),
        r is Err ==> spec_parse_logical_and_expression(tokens@, *old(i) as int) == Err::<int, Error>(r->Err_0),
    decreases tokens@.len() - *i, 57int,
{
    let n_tokens = tokens.len();
    let mut ret = parse_or_expression(i, tokens)?;
    loop
        invariant
            n_tokens == tokens@.len(),
            (*old(i) as int) < *i as int <= tokens@.len(),
            land_matches(tokens@, *old(i) as int, *i as int, *ret),
            spec_parse_logical_and_expression(tokens@, *old(i) as int) == spec_parse_logical_and_more(tokens@, *i as int),
        ensures
            *i as int == tokens@.len() || tokens@[*i as int].kind != TokenKind::And,
        decreases tokens@.len() - *i,
    {
        let again = if *i < n_tokens {
            match &tokens[*i].kind {
                TokenKind::And => true,
                _ => false,
            }
        } else {
            false
        };
        if !again {
            break;
        }
        let ghost opidx: int = *i as int;
        let ghost lhs: Expression = *ret;
        *i = *i + 1;
        let right = parse_or_expression(i, tokens)?;
        let ghost rhs: Expression = *right;
        ret = Box::new(
            Expression::Binary(
                BinaryExpression { operator: BinaryOperator::LogicalAnd, left: ret, right },
            ),
        );
        proof {
            assert(((*ret) matches Expression::Binary(b) && *b.left == lhs && *b.right == rhs));
            assert(land_matches(tokens@, *old(i) as int, *i as int, *ret));
        }
    }
    Ok(ret)
}

/// Left-associative bitwise `|`.
#[verifier::rlimit(60)]
pub fn parse_or_expression(i: &mut usize, tokens: &Vec<Token>) -> (r: Result<Box<Expression>, Error>)
    requires
        *old(i) <= tokens@.len(),
    ensures
        *old(i) <= *final(i) <= tokens@.len(),
        r is Err ==> delimiter_policy(r->Err_0),
        r is Ok ==> *old(i) < *final(i),
        r is Ok ==> bor_matches(tokens@, *old(i) as int, *final(i) as int, *r->Ok_0),
        r is Ok ==> *final(i) == tokens@.len() || tokens@[*final(i) as int].kind
            != TokenKind::BitOr,
        r is Ok ==> spec_parse_or_expression(tokens@, *old(i) as int) == Ok::<int, Error>(*final(i) as int),
        r is Err ==> spec_parse_or_expression(tokens@, *old(i) as int) == Err::<int, Error>(r->Err_0),
    decreases tokens@.len() - *i, 56int,
{
    let n_tokens = tokens.len();
    let mut ret = parse_and_expression(i, tokens)?;
    loop
        invariant
            n_tokens == tokens@.len(),
            (*old(i) as int) < *i as int <= tokens@.len(),
            bor_matches(tokens@, *old(i) as int, *i as int, *ret),
            spec_parse_or_expression(tokens@, *old(i) as int) == spec_parse_or_more(tokens@, *i as int),
        ensures
            *i as int == tokens@.len() || tokens@[*i as int].kind != TokenKind::BitOr,
        decreases tokens@.len() - *i,
    {
        let again = if *i < n_tokens {
            match &tokens[*i].kind {
                TokenKind::BitOr => true,
                _ => false,
            }
        } else {
            false
        };
        if !again {
            break;
        }
        let ghost opidx: int = *i as int;
        let ghost lhs: Expression = *ret;
        *i = *i + 1;
        let right = parse_and_expression(i, tokens)?;
        let ghost rhs: Expression = *right;
        ret = Box::new(
            Expression::Binary(
                BinaryExpression { operator: BinaryOperator::Or, left: ret, right },
            ),
        );
        proof {
            assert(((*ret) matches Expression::Binary(b) && *b.left == lhs && *b.right == rhs));
            assert(bor_matches(tokens@, *old(i) as int, *i as int, *ret));
        }
    }
    Ok(ret)
}

/// Left-associative bitwise `&`.
pub fn parse_and_expression(i: &mut usize, tokens: &Vec<Token>) -> (r: Result<
    Box<Expression>,
    Error,
>)
    requires
        *old(i) <= tokens@.len(),
    ensures
        *old(i) <= *final(i) <= tokens@.len(),
        r is Err ==> delimiter_policy(r->Err_0),
        r is Ok ==> *old(i) < *final(i),
        r is Ok ==> band_matches(tokens@, *old(i) as int, *final(i) as int, *r->Ok_0),
        r is Ok ==> *final(i) == tokens@.len() || tokens@[*final(i) as int].kind
            != TokenKind::BitAnd,
        r is Ok ==> spec_parse_and_expression(tokens@, *old(i) as int) == Ok::<int, Error>(*final(i) as int),
        r is Err ==> spec_parse_and_expression(tokens@, *old(i) as int) == Err::<int, Error>(r->Err_0),
    decreases tokens@.len() - *i, 55int,
{
    let n_tokens = tokens.len();
    let mut ret = parse_equality_expression(i, tokens)?;
    loop
        invariant
            n_tokens == tokens@.len(),
            (*old(i) as int) < *i as int <= tokens@.len(),
            band_matches(tokens@, *old(i) as int, *i as int, *ret),
            spec_parse_and_expression(tokens@, *old(i) as int) == spec_parse_and_more(tokens@, *i as int),
        ensures
            *i as int == tokens@.len() || tokens@[*i as int].kind != TokenKind::BitAnd,
        decreases tokens@.len() - *i,
    {
        let again = if *i < n_tokens {
            match &tokens[*i].kind {
                TokenKind::BitAnd => true,
                _ => false,
            }
        } else {
            false
        };
        if !again {
            break;
        }
        let ghost opidx: int = *i as int;
        let ghost lhs: Expression = *ret;
        *i = *i + 1;
        let right = parse_equality_expression(i, tokens)?;
        let ghost rhs: Expression = *right;
        ret = Box::new(
            Expression::Binary(
                BinaryExpression { operator: BinaryOperator::And, left: ret, right },
            ),
        );
        proof {
            assert(((*ret) matches Expression::Binary(b) && *b.left == lhs && *b.right == rhs));
            assert(band_matches(tokens@, *old(i) as int, *i as int, *ret));
        }
    }
    Ok(ret)
}

proof fn lemma_eq_step(s: Seq<Token>, lo: int, opidx: int, hi: int, acc: Expression, rhs: Expression, e: Expression)
    requires
        0 <= lo < opidx,
        opidx < hi <= s.len(),
        (e matches Expression::Binary(b) && *b.left == acc && *b.right == rhs && (b.operator
            == BinaryOperator::Eq || b.operator == BinaryOperator::Neq) && s[opidx].kind
            == binop_token(b.operator)),
        eq_matches(s, lo, opidx, acc),
        rel_matches(s, opidx + 1, hi, rhs),
    ensures
        eq_matches(s, lo, hi, e),
{
    match e {
        Expression::Binary(b) => {
            assert(lo < opidx && opidx < hi && s[opidx].kind == binop_token(b.operator)
                && eq_matches(s, lo, opidx, *b.left) && rel_matches(s, opidx + 1, hi, *b.right));
        },
        _ => {
            assert(false);
        },
    }
}

/// Left-associative `==` and `!=`.
#[verifier::rlimit(100)]
pub fn parse_equality_expression(i: &mut usize, tokens: &Vec<Token>) -> (r: Result<
    Box<Expression>,
    Error,
>)
    requires
        *old(i) <= tokens@.len(),
    ensures
        *old(i) <= *final(i) <= tokens@.len(),
        r is Err ==> delimiter_policy(r->Err_0),
        r is Ok ==> *old(i) < *final(i),
        r is Ok ==> eq_matches(tokens@, *old(i) as int, *final(i) as int, *r->Ok_0),
        r is Ok ==> *final(i) == tokens@.len() || (tokens@[*final(i) as int].kind
            != TokenKind::Relop(crate::token::RelopKind::Eq) && tokens@[*final(i) as int].kind
            != TokenKind::Relop(crate::token::RelopKind::Neq)),
        r is Ok ==> spec_parse_equality_expression(tokens@, *old(i) as int) == Ok::<int, Error>(*final(i) as int),
        r is Err ==> spec_parse_equality_expression(tokens@, *old(i) as int) == Err::<int, Error>(r->Err_0),
    decreases tokens@.len() - *i, 54int,
{
    let n_tokens = tokens.len();
    let mut ret = parse_relational_expression(i, tokens)?;
    loop
        invariant
            n_tokens == tokens@.len(),
            (*old(i) as int) < *i as int <= tokens@.len(),
            eq_matches(tokens@, *old(i) as int, *i as int, *ret),
            spec_parse_equality_expression(tokens@, *old(i) as int) == spec_parse_equality_more(tokens@, *i as int),
        ensures
            *i as int == tokens@.len() || (tokens@[*i as int].kind != TokenKind::Relop(crate::token::RelopKind::Eq) && tokens@[*i as int].kind != TokenKind::Relop(crate::token::RelopKind::Neq)),
        decreases tokens@.len() - *i,
    {
        let op = if *i < n_tokens {
            match &tokens[*i].kind {
                TokenKind::Relop(crate::token::RelopKind::Eq) => Some(BinaryOperator::Eq),
                TokenKind::Relop(crate::token::RelopKind::Neq) => Some(BinaryOperator::Neq),
                _ => None,
            }
        } else {
            None
        };
        let operator = match op {
            Some(operator) => operator,
            None => {
                break;
            },
        };
        let ghost opidx: int = *i as int;
        let ghost lhs: Expression = *ret;
        *i = *i + 1;
        let right = parse_relational_expression(i, tokens)?;
        let ghost rhs: Expression = *right;
        ret = Box::new(Expression::Binary(BinaryExpression { operator, left: ret, right }));
        proof {
            assert(((*ret) matches Expression::Binary(b) && *b.left == lhs && *b.right == rhs
                && tokens@[opidx].kind == binop_token(b.operator)));
            lemma_eq_step(tokens@, *old(i) as int, opidx, *i as int, lhs, rhs, *ret);
        }
    }
    Ok(ret)
}

/// Left-associative `<`, `<=`, `>`, `>=`.
pub fn parse_relational_expression(i: &mut usize, tokens: &Vec<Token>) -> (r: Result<
    Box<Expression>,
    Error,
>)
    requires
        *old(i) <= tokens@.len(),
    ensures
        *old(i) <= *final(i) <= tokens@.len(),
        r is Err ==> delimiter_policy(r->Err_0),
        r is Ok ==> *old(i) < *final(i),
        r is Ok ==> rel_matches(tokens@, *old(i) as int, *final(i) as int, *r->Ok_0),
        r is Ok ==> *final(i) == tokens@.len() || (tokens@[*final(i) as int].kind
            != TokenKind::Relop(crate::token::RelopKind::Le) && tokens@[*final(i) as int].kind
            != TokenKind::Relop(crate::token::RelopKind::Lt) && tokens@[*final(i) as int].kind
            != TokenKind::Relop(crate::token::RelopKind::Ge) && tokens@[*final(i) as int].kind
            != TokenKind::Relop(crate::token::RelopKind::Gt)),
        r is Ok ==> spec_parse_relational_expression(tokens@, *old(i) as int) == Ok::<int, Error>(*final(i) as int),
        r is Err ==> spec_parse_relational_expression(tokens@, *old(i) as int) == Err::<int, Error>(r->Err_0),
    decreases tokens@.len() - *i, 53int,
{
    let n_tokens = tokens.len();
    let mut ret = parse_additive_expression(i, tokens)?;
    loop
        invariant
            n_tokens == tokens@.len(),
            (*old(i) as int) < *i as int <= tokens@.len(),
            rel_matches(tokens@, *old(i) as int, *i as int, *ret),
            spec_parse_relational_expression(tokens@, *old(i) as int) == spec_parse_relational_more(tokens@, *i as int),
        ensures
            *i as int == tokens@.len() || (tokens@[*i as int].kind != TokenKind::Relop(crate::token::RelopKind::Le) && tokens@[*i as int].kind != TokenKind::Relop(crate::token::RelopKind::Lt) && tokens@[*i as int].kind != TokenKind::Relop(crate::token::RelopKind::Ge) && tokens@[*i as int].kind != TokenKind::Relop(crate::token::RelopKind::Gt)),
        decreases tokens@.len() - *i,
    {
        let op = if *i < n_tokens {
            match &tokens[*i].kind {
                TokenKind::Relop(crate::token::RelopKind::Le) => Some(BinaryOperator::Le),
                TokenKind::Relop(crate::token::RelopKind::Lt) => Some(BinaryOperator::Lt),
                TokenKind::Relop(crate::token::RelopKind::Ge) => Some(BinaryOperator::Ge),
                TokenKind::Relop(crate::token::RelopKind::Gt) => Some(BinaryOperator::Gt),
                _ => None,
            }
        } else {
            None
        };
        let operator = match op {
            Some(operator) => operator,
            None => {
                break;
            },
        };
        let ghost opidx: int = *i as int;
        let ghost lhs: Expression = *ret;
        *i = *i + 1;
        let right = parse_additive_expression(i, tokens)?;
        let ghost rhs: Expression = *right;
        ret = Box::new(Expression::Binary(BinaryExpression { operator, left: ret, right }));
        proof {
            assert(((*ret) matches Expression::Binary(b) && *b.left == lhs && *b.right == rhs));
            assert(rel_matches(tokens@, *old(i) as int, *i as int, *ret));
        }
    }
    Ok(ret)
}

/// Left-associative `+` and `-`.
pub fn parse_additive_expression(i: &mut usize, tokens: &Vec<Token>) -> (r: Result<
    Box<Expression>,
    Error,
>)
    requires
        *old(i) <= tokens@.len(),
    ensures
        *old(i) <= *final(i) <= tokens@.len(),
        r is Err ==> delimiter_policy(r->Err_0),
        r is Ok ==> *old(i) < *final(i),
        r is Ok ==> add_matches(tokens@, *old(i) as int, *final(i) as int, *r->Ok_0),
        r is Ok ==> *final(i) == tokens@.len() || (tokens@[*final(i) as int].kind
            != TokenKind::Plus && tokens@[*final(i) as int].kind != TokenKind::Minus),
        r is Ok ==> spec_parse_additive_expression(tokens@, *old(i) as int) == Ok::<int, Error>(*final(i) as int),
        r is Err ==> spec_parse_additive_expression(tokens@, *old(i) as int) == Err::<int, Error>(r->Err_0),
    decreases tokens@.len() - *i, 52int,
{
    let n_tokens = tokens.len();
    let mut ret = parse_multiplicative_expression(i, tokens)?;
    loop
        invariant
            n_tokens == tokens@.len(),
            (*old(i) as int) < *i as int <= tokens@.len(),
            add_matches(tokens@, *old(i) as int, *i as int, *ret),
            spec_parse_additive_expression(tokens@, *old(i) as int) == spec_parse_additive_more(tokens@, *i as int),
        ensures
            *i as int == tokens@.len() || (tokens@[*i as int].kind != TokenKind::Plus && tokens@[*i as int].kind != TokenKind::Minus),
        decreases tokens@.len() - *i,
    {
        let op = if *i < n_tokens {
            match &tokens[*i].kind {
                TokenKind::Plus => Some(BinaryOperator::Add),
                TokenKind::Minus => Some(BinaryOperator::Minus),
                _ => None,
            }
        } else {
            None
        };
        let operator = match op {
            Some(operator) => operator,
            None => {
                break;
            },
        };
        let ghost opidx: int = *i as int;
        let ghost lhs: Expression = *ret;
        *i = *i + 1;
        let right = parse_multiplicative_expression(i, tokens)?;
        let ghost rhs: Expression = *right;
        ret = Box::new(Expression::Binary(BinaryExpression { operator, left: ret, right }));
        proof {
            assert(((*ret) matches Expression::Binary(b) && *b.left == lhs && *b.right == rhs));
            assert(add_matches(tokens@, *old(i) as int, *i as int, *ret));
        }
    }
    Ok(ret)
}

/// Left-associative `*` and `/`.
pub fn parse_multiplicative_expression(i: &mut usize, tokens: &Vec<Token>) -> (r: Result<
    Box<Expression>,
    Error,
>)
    requires
        *old(i) <= tokens@.len(),
    ensures
        *old(i) <= *final(i) <= tokens@.len(),
        r is Err ==> delimiter_policy(r->Err_0),
        r is Ok ==> *old(i) < *final(i),
        r is Ok ==> mul_matches(tokens@, *old(i) as int, *final(i) as int, *r->Ok_0),
        r is Ok ==> *final(i) == tokens@.len() || (tokens@[*final(i) as int].kind
            != TokenKind::Star && tokens@[*final(i) as int].kind != TokenKind::Divide),
        r is Ok ==> spec_parse_multiplicative_expression(tokens@, *old(i) as int) == Ok::<int, Error>(*final(i) as int),
        r is Err ==> spec_parse_multiplicative_expression(tokens@, *old(i) as int) == Err::<int, Error>(r->Err_0),
    decreases tokens@.len() - *i, 51int,
{
    let n_tokens = tokens.len();
    let mut ret = parse_unary_expression(i, tokens)?;
    loop
        invariant
            n_tokens == tokens@.len(),
            (*old(i) as int) < *i as int <= tokens@.len(),
            mul_matches(tokens@, *old(i) as int, *i as int, *ret),
            spec_parse_multiplicative_expression(tokens@, *old(i) as int) == spec_parse_multiplicative_more(tokens@, *i as int),
        ensures
            *i as int == tokens@.len() || (tokens@[*i as int].kind != TokenKind::Star && tokens@[*i as int].kind != TokenKind::Divide),
        decreases tokens@.len() - *i,
    {
        let op = if *i < n_tokens {
            match &tokens[*i].kind {
                TokenKind::Star => Some(BinaryOperator::Multiply),
                TokenKind::Divide => Some(BinaryOperator::DivideBy),
                _ => None,
            }
        } else {
            None
        };
        let operator = match op {
            Some(operator) => operator,
            None => {
                break;
            },
        };
        let ghost opidx: int = *i as int;
        let ghost lhs: Expression = *ret;
        *i = *i + 1;
        let right = parse_unary_expression(i, tokens)?;
        let ghost rhs: Expression = *right;
        ret = Box::new(Expression::Binary(BinaryExpression { operator, left: ret, right }));
        proof {
            assert(((*ret) matches Expression::Binary(b) && *b.left == lhs && *b.right == rhs));
            assert(mul_matches(tokens@, *old(i) as int, *i as int, *ret));
        }
    }
    Ok(ret)
}

/// A chain of unary prefix operators binding a single following unary
/// expression; fails with `ExpectExpression` when the tokens are exhausted.
/// A prefix-operator token yields exactly that unary node.
pub fn parse_unary_expression(i: &mut usize, tokens: &Vec<Token>) -> (r: Result<
    Box<Expression>,
    Error,
>)
    requires
        *old(i) <= tokens@.len(),
    ensures
        *old(i) <= *final(i) <= tokens@.len(),
        r is Err ==> delimiter_policy(r->Err_0),
        r is Ok ==> *old(i) < *final(i),
        r is Ok ==> unary_matches(tokens@, *old(i) as int, *final(i) as int, *r->Ok_0),
        r is Ok && spec_unary_operator(tokens@[*old(i) as int].kind) is Some ==> ((*r->Ok_0)
            matches Expression::Unary(u) && Some(u.operator) == spec_unary_operator(
            tokens@[*old(i) as int].kind,
        )),
        r is Ok ==> spec_parse_unary_expression(tokens@, *old(i) as int) == Ok::<int, Error>(*final(i) as int),
        r is Err ==> spec_parse_unary_expression(tokens@, *old(i) as int) == Err::<int, Error>(r->Err_0),
    decreases tokens@.len() - *i, 50int,
{
    if *i >= tokens.len() {
        return Err(error(*i, tokens, ErrorKind::ExpectExpression));
    }
    match unary_operator_of(&tokens[*i].kind) {
        Some(operator) => {
            *i = *i + 1;
            let operand = parse_unary_expression(i, tokens)?;
            let ghost inner: Expression = *operand;
            let node = Box::new(Expression::Unary(UnaryExpression { operator, operand }));
            proof {
                assert(unary_matches(tokens@, *old(i) as int, *i as int, *node));
            }
            Ok(node)
        },
        None => parse_postfix_expression(i, tokens),
    }
}

/// What follows a postfix operand at the cursor.
enum PostfixNext {
    Subscript(Position),
    Call(Position),
    Done,
}

/// Postfix subscripts and calls applied left to right to a growing operand.
#[verifier::rlimit(100)]
pub fn parse_postfix_expression(i: &mut usize, tokens: &Vec<Token>) -> (r: Result<
    Box<Expression>,
    Error,
>)
    requires
        *old(i) <= tokens@.len(),
    ensures
        *old(i) <= *final(i) <= tokens@.len(),
        r is Err ==> delimiter_policy(r->Err_0),
        r is Ok ==> *old(i) < *final(i),
        r is Ok ==> postfix_matches(tokens@, *old(i) as int, *final(i) as int, *r->Ok_0),
        r is Ok ==> *final(i) == tokens@.len() || (tokens@[*final(i) as int].kind
            != TokenKind::LeftSqBracket && tokens@[*final(i) as int].kind != TokenKind::LeftParen),
        r is Ok ==> spec_parse_postfix_expression(tokens@, *old(i) as int) == Ok::<int, Error>(*final(i) as int),
        r is Err ==> spec_parse_postfix_expression(tokens@, *old(i) as int) == Err::<int, Error>(r->Err_0),
    decreases tokens@.len() - *i, 49int,
{
    let n_tokens = tokens.len();
    let mut ret = parse_primary_expression(i, tokens)?;
    loop
        invariant
            n_tokens == tokens@.len(),
            (*old(i) as int) < *i as int <= tokens@.len(),
            postfix_matches(tokens@, *old(i) as int, *i as int, *ret),
            spec_parse_postfix_expression(tokens@, *old(i) as int) == spec_parse_postfix_more(tokens@, *i as int),
        ensures
            *i as int == tokens@.len() || (tokens@[*i as int].kind != TokenKind::LeftSqBracket && tokens@[*i as int].kind != TokenKind::LeftParen),
        decreases tokens@.len() - *i,
    {
        let next = if *i < n_tokens {
            match &tokens[*i].kind {
                TokenKind::LeftSqBracket => PostfixNext::Subscript(tokens[*i].pos),
                TokenKind::LeftParen => PostfixNext::Call(tokens[*i].pos),
                _ => PostfixNext::Done,
            }
        } else {
            PostfixNext::Done
        };
        match next {
            PostfixNext::Done => {
                break;
            },
            PostfixNext::Subscript(left_pos) => {
                let ghost opener: int = *i as int;
                let ghost operand_v: Expression = *ret;
                *i = *i + 1;
                let subscript = Box::new(parse_expression(i, tokens)?);
                let ghost sub_v: Expression = *subscript;
                let ghost sub_end: int = *i as int;
                parse_right(i, tokens, ']', left_pos)?;
                ret = Box::new(
                    Expression::Postfix(
                        PostfixExpression {
                            operand: ret,
                            postfix: PostfixExpressionPostfix::Subscript(subscript),
                        },
                    ),
                );
                proof {
                    assert((*old(i) as int) < opener && opener + 1 < *i as int && tokens@[
                        opener].kind == TokenKind::LeftSqBracket && tokens@[*i as int - 1].kind
                        == TokenKind::RightSqBracket && postfix_matches(
                        tokens@,
                        *old(i) as int,
                        opener,
                        operand_v,
                    ) && expr_matches(tokens@, opener + 1, *i as int - 1, sub_v));
                    assert(postfix_matches(tokens@, *old(i) as int, *i as int, *ret));
                }
            },
            PostfixNext::Call(left_pos) => {
                let ghost opener: int = *i as int;
                let ghost operand_v: Expression = *ret;
                *i = *i + 1;
                let empty_call = if *i < n_tokens {
                    match &tokens[*i].kind {
                        TokenKind::RightParen => true,
                        _ => false,
                    }
                } else {
                    false
                };
                let arguments = if empty_call {
                    Vec::new()
                } else {
                    parse_argument_expression_list(i, tokens)?
                };
                let ghost args_v: Seq<Expression> = arguments@;
                let ghost args_end: int = *i as int;
                parse_right(i, tokens, ')', left_pos)?;
                ret = Box::new(
                    Expression::Postfix(
                        PostfixExpression {
                            operand: ret,
                            postfix: PostfixExpressionPostfix::Call(arguments),
                        },
                    ),
                );
                proof {
                    assert((*old(i) as int) < opener && opener + 1 < *i as int && tokens@[
                        opener].kind == TokenKind::LeftParen && tokens@[*i as int - 1].kind
                        == TokenKind::RightParen && postfix_matches(
                        tokens@,
                        *old(i) as int,
                        opener,
                        operand_v,
                    ));
                    if args_v.len() == 0 {
                        assert(*i as int - 1 == opener + 1);
                    } else {
                        assert(args_match(tokens@, opener + 1, *i as int - 1, args_v));
                    }
                    assert(postfix_matches(tokens@, *old(i) as int, *i as int, *ret));
                }
            },
        }
    }
    Ok(ret)
}

/// A non-empty comma-separated list of assignment expressions: the
/// arguments of a call.
pub fn parse_argument_expression_list(i: &mut usize, tokens: &Vec<Token>) -> (r: Result<
    Vec<Expression>,
    Error,
>)
    requires
        *old(i) <= tokens@.len(),
    ensures
        *old(i) <= *final(i) <= tokens@.len(),
        r is Err ==> delimiter_policy(r->Err_0),
        r is Ok ==> *old(i) < *final(i),
        r is Ok ==> r->Ok_0@.len() > 0 && args_match(
            tokens@,
            *old(i) as int,
            *final(i) as int,
            r->Ok_0@,
        ),
        r is Ok ==> *final(i) == tokens@.len() || tokens@[*final(i) as int].kind
            != TokenKind::Comma,
        r is Ok ==> spec_parse_argument_expression_list(tokens@, *old(i) as int) == Ok::<int, Error>(*final(i) as int),
        r is Err ==> spec_parse_argument_expression_list(tokens@, *old(i) as int) == Err::<int, Error>(r->Err_0),
    decreases tokens@.len() - *i, 65int,
{
    let n_tokens = tokens.len();
    let first = parse_assignment_expression(i, tokens)?;
    let mut v: Vec<Expression> = Vec::new();
    v.push(*first);
    proof {
        assert(v@ =~= seq![v@[0]]);
        assert(args_match(tokens@, *old(i) as int, *i as int, v@));
    }
    loop
        invariant
            n_tokens == tokens@.len(),
            (*old(i) as int) < *i as int <= tokens@.len(),
            v@.len() >= 1,
            args_match(tokens@, *old(i) as int, *i as int, v@),
            spec_parse_argument_expression_list(tokens@, *old(i) as int) == spec_parse_args_more(tokens@, *i as int),
        ensures
            *i as int == tokens@.len() || tokens@[*i as int].kind != TokenKind::Comma,
        decreases tokens@.len() - *i,
    {
        let again = if *i < n_tokens {
            match &tokens[*i].kind {
                TokenKind::Comma => true,
                _ => false,
            }
        } else {
            false
        };
        if !again {
            break;
        }
        let ghost opidx: int = *i as int;
        let ghost pre_args: Seq<Expression> = v@;
        *i = *i + 1;
        let item = parse_assignment_expression(i, tokens)?;
        let ghost item_v: Expression = *item;
        v.push(*item);
        proof {
            assert(v@ =~= pre_args.push(item_v));
            assert(v@.drop_last() =~= pre_args);
            assert(v@.last() == item_v);
            assert(args_match(tokens@, *old(i) as int, opidx, v@.drop_last()) && expr_matches(
                tokens@,
                opidx + 1,
                *i as int,
                v@.last(),
            ));
            assert(args_match(tokens@, *old(i) as int, *i as int, v@));
        }
    }
    Ok(v)
}

/// An identifier, an integer or floating literal, or a parenthesized
/// expression; fails with `ExpectExpression` on anything else. A literal or
/// identifier token becomes exactly its atom.
pub fn parse_primary_expression(i: &mut usize, tokens: &Vec<Token>) -> (r: Result<
    Box<Expression>,
    Error,
>)
    requires
        *old(i) <= tokens@.len(),
    ensures
        *old(i) <= *final(i) <= tokens@.len(),
        r is Err ==> delimiter_policy(r->Err_0),
        r is Ok ==> *old(i) < *final(i),
        r is Ok ==> primary_matches(tokens@, *old(i) as int, *final(i) as int, *r->Ok_0),
        r is Ok ==> match tokens@[*old(i) as int].kind {
            TokenKind::Id(x) => *final(i) == *old(i) + 1 && *r->Ok_0 == Expression::Atom(
                AtomExpression::Identifier(x),
            ),
            TokenKind::IntegerConstant(n) => *final(i) == *old(i) + 1 && *r->Ok_0
                == Expression::Atom(AtomExpression::Integer(n)),
            TokenKind::FloatingConstant(f) => *final(i) == *old(i) + 1 && *r->Ok_0
                == Expression::Atom(AtomExpression::Floating(f)),
            TokenKind::LeftParen => true,
            _ => false,
        },
        r is Ok ==> spec_parse_primary_expression(tokens@, *old(i) as int) == Ok::<int, Error>(*final(i) as int),
        r is Err ==> spec_parse_primary_expression(tokens@, *old(i) as int) == Err::<int, Error>(r->Err_0),
    decreases tokens@.len() - *i, 48int,
{
    if *i >= tokens.len() {
        return Err(error(*i, tokens, ErrorKind::ExpectExpression));
    }
    let token = &tokens[*i];
    match token.kind {
        TokenKind::Id(id) => {
            *i = *i + 1;
            let node = Box::new(Expression::Atom(AtomExpression::Identifier(id)));
            proof {
                assert(primary_matches(tokens@, *old(i) as int, *i as int, *node));
            }
            Ok(node)
        },
        TokenKind::IntegerConstant(n) => {
            *i = *i + 1;
            let node = Box::new(Expression::Atom(AtomExpression::Integer(n)));
            proof {
                assert(primary_matches(tokens@, *old(i) as int, *i as int, *node));
            }
            Ok(node)
        },
        TokenKind::FloatingConstant(f) => {
            *i = *i + 1;
            let node = Box::new(Expression::Atom(AtomExpression::Floating(f)));
            proof {
                assert(primary_matches(tokens@, *old(i) as int, *i as int, *node));
            }
            Ok(node)
        },
        TokenKind::LeftParen => {
            let left_pos = token.pos;
            *i = *i + 1;
            let expression = parse_expression(i, tokens)?;
            let ghost inner_v: Expression = expression;
            let ghost inner_end: int = *i as int;
            parse_right(i, tokens, ')', left_pos)?;
            let node = Box::new(expression);
            proof {
                assert((*old(i) as int) + 2 < *i as int && tokens@[*old(i) as int].kind
                    == TokenKind::LeftParen && tokens@[*i as int - 1].kind == TokenKind::RightParen
                    && expr_matches(tokens@, *old(i) as int + 1, *i as int - 1, inner_v));
                assert(primary_matches(tokens@, *old(i) as int, *i as int, *node));
            }
            Ok(node)
        },
        _ => Err(error(*i, tokens, ErrorKind::ExpectExpression)),
    }
}

} // verus!
