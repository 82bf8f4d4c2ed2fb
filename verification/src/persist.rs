//! The persistence codec for the scanner's output.
//!
//! Layout: a fixed-size header of three `{offset, len}` section descriptors
//! (tokens, identifier table, text), then the three sections back to back.
//! All numbers are little-endian 64-bit; a token is a fixed-size tagged
//! record of one tag byte and five numbers; the text section holds the raw
//! UTF-8 arena bytes. Offsets are absolute; the token section starts right
//! after the header, and each further section starts where the previous one
//! ends. Decoding validates the header, the section offsets, every record
//! tag and field range, and that the text is valid UTF-8; it performs no
//! semantic validation of the tokens themselves.

use vstd::prelude::*;
use vstd::bytes::{
    spec_u64_to_le_bytes, spec_u64_from_le_bytes, u64_to_le_bytes, u64_from_le_bytes,
    lemma_auto_spec_u64_to_from_le_bytes,
};
use vstd::slice::slice_subrange;
use vstd::utf8::valid_utf8;
use crate::token::{Token, TokenKind, QualifierKind, RelopKind, FloatConst, Position, Identifier};
use crate::error::DecodeError;
use crate::lexer::LexerOutput;

verus! {

/// Header size in bytes: three sections of two 64-bit numbers each.
pub const HEADER_SIZE: usize = 48;

/// Size of one token record: a tag byte and five 64-bit numbers.
pub const TOKEN_RECORD_SIZE: usize = 41;

/// Size of one identifier record: two 64-bit numbers.
pub const ID_RECORD_SIZE: usize = 16;

/// The numeric code of a type qualifier.
pub open spec fn qual_num(q: QualifierKind) -> u64 {
    match q {
        QualifierKind::Void => 0,
        QualifierKind::Int => 1,
        QualifierKind::Double => 2,
    }
}

/// The numeric code of a relational operator.
pub open spec fn relop_num(r: RelopKind) -> u64 {
    match r {
        RelopKind::Assign => 0,
        RelopKind::Gt => 1,
        RelopKind::Lt => 2,
        RelopKind::Ge => 3,
        RelopKind::Le => 4,
        RelopKind::Neq => 5,
        RelopKind::Eq => 6,
    }
}

/// A token kind as a tag byte and three payload numbers (unused ones zero).
pub open spec fn token_repr(k: TokenKind) -> (u8, u64, u64, u64) {
    match k {
        TokenKind::IntegerConstant(v) => (0, v as u64, 0, 0),
        TokenKind::FloatingConstant(f) => (1, f.int_part as u64, f.frac_num, f.frac_len),
        TokenKind::Id(x) => (2, x as u64, 0, 0),
        TokenKind::If => (3, 0, 0, 0),
        TokenKind::Else => (4, 0, 0, 0),
        TokenKind::While => (5, 0, 0, 0),
        TokenKind::For => (6, 0, 0, 0),
        TokenKind::Do => (7, 0, 0, 0),
        TokenKind::Qualifier(q) => (8, qual_num(q), 0, 0),
        TokenKind::Plus => (9, 0, 0, 0),
        TokenKind::Minus => (10, 0, 0, 0),
        TokenKind::Star => (11, 0, 0, 0),
        TokenKind::Divide => (12, 0, 0, 0),
        TokenKind::Relop(r) => (13, relop_num(r), 0, 0),
        TokenKind::LeftBrace => (14, 0, 0, 0),
        TokenKind::RightBrace => (15, 0, 0, 0),
        TokenKind::LeftParen => (16, 0, 0, 0),
        TokenKind::RightParen => (17, 0, 0, 0),
        TokenKind::LeftSqBracket => (18, 0, 0, 0),
        TokenKind::RightSqBracket => (19, 0, 0, 0),
        TokenKind::Semicolon => (20, 0, 0, 0),
        TokenKind::Comma => (21, 0, 0, 0),
        TokenKind::Not => (22, 0, 0, 0),
        TokenKind::Continue => (23, 0, 0, 0),
        TokenKind::Break => (24, 0, 0, 0),
        TokenKind::Return => (25, 0, 0, 0),
        TokenKind::And => (26, 0, 0, 0),
        TokenKind::Or => (27, 0, 0, 0),
        TokenKind::BitAnd => (28, 0, 0, 0),
        TokenKind::BitOr => (29, 0, 0, 0),
        TokenKind::BitNot => (30, 0, 0, 0),
    }
}

/// The token kind encoded by a tag byte and three payload numbers, or `None`
/// when the tag is unknown or a payload is out of its field's range.
pub open spec fn token_unrepr(tag: u8, a: u64, b: u64, c: u64) -> Option<TokenKind> {
    if tag == 0 {
        if a <= u32::MAX {
            Some(TokenKind::IntegerConstant(a as u32))
        } else {
            None
        }
    } else if tag == 1 {
        if a <= u32::MAX {
            Some(
                TokenKind::FloatingConstant(
                    FloatConst { int_part: a as u32, frac_num: b, frac_len: c },
                ),
            )
        } else {
            None
        }
    } else if tag == 2 {
        if a <= usize::MAX {
            Some(TokenKind::Id(a as usize))
        } else {
            None
        }
    } else if tag == 3 {
        Some(TokenKind::If)
    } else if tag == 4 {
        Some(TokenKind::Else)
    } else if tag == 5 {
        Some(TokenKind::While)
    } else if tag == 6 {
        Some(TokenKind::For)
    } else if tag == 7 {
        Some(TokenKind::Do)
    } else if tag == 8 {
        if a == 0 {
            Some(TokenKind::Qualifier(QualifierKind::Void))
        } else if a == 1 {
            Some(TokenKind::Qualifier(QualifierKind::Int))
        } else if a == 2 {
            Some(TokenKind::Qualifier(QualifierKind::Double))
        } else {
            None
        }
    } else if tag == 9 {
        Some(TokenKind::Plus)
    } else if tag == 10 {
        Some(TokenKind::Minus)
    } else if tag == 11 {
        Some(TokenKind::Star)
    } else if tag == 12 {
        Some(TokenKind::Divide)
    } else if tag == 13 {
        if a == 0 {
            Some(TokenKind::Relop(RelopKind::Assign))
        } else if a == 1 {
            Some(TokenKind::Relop(RelopKind::Gt))
        } else if a == 2 {
            Some(TokenKind::Relop(RelopKind::Lt))
        } else if a == 3 {
            Some(TokenKind::Relop(RelopKind::Ge))
        } else if a == 4 {
            Some(TokenKind::Relop(RelopKind::Le))
        } else if a == 5 {
            Some(TokenKind::Relop(RelopKind::Neq))
        } else if a == 6 {
            Some(TokenKind::Relop(RelopKind::Eq))
        } else {
            None
        }
    } else if tag == 14 {
        Some(TokenKind::LeftBrace)
    } else if tag == 15 {
        Some(TokenKind::RightBrace)
    } else if tag == 16 {
        Some(TokenKind::LeftParen)
    } else if tag == 17 {
        Some(TokenKind::RightParen)
    } else if tag == 18 {
        Some(TokenKind::LeftSqBracket)
    } else if tag == 19 {
        Some(TokenKind::RightSqBracket)
    } else if tag == 20 {
        Some(TokenKind::Semicolon)
    } else if tag == 21 {
        Some(TokenKind::Comma)
    } else if tag == 22 {
        Some(TokenKind::Not)
    } else if tag == 23 {
        Some(TokenKind::Continue)
    } else if tag == 24 {
        Some(TokenKind::Break)
    } else if tag == 25 {
        Some(TokenKind::Return)
    } else if tag == 26 {
        Some(TokenKind::And)
    } else if tag == 27 {
        Some(TokenKind::Or)
    } else if tag == 28 {
        Some(TokenKind::BitAnd)
    } else if tag == 29 {
        Some(TokenKind::BitOr)
    } else if tag == 30 {
        Some(TokenKind::BitNot)
    } else {
        None
    }
}

/// The bytes of one token record.
pub open spec fn token_bytes(t: Token) -> Seq<u8> {
    let r = token_repr(t.kind);
    seq![r.0] + spec_u64_to_le_bytes(r.1) + spec_u64_to_le_bytes(r.2) + spec_u64_to_le_bytes(r.3)
        + spec_u64_to_le_bytes(t.pos.line as u64) + spec_u64_to_le_bytes(t.pos.col as u64)
}

/// The token section: the records back to back, in scan order.
pub open spec fn tokens_bytes(ts: Seq<Token>) -> Seq<u8>
    decreases ts.len(),
{
    if ts.len() == 0 {
        Seq::empty()
    } else {
        tokens_bytes(ts.drop_last()) + token_bytes(ts.last())
    }
}

/// The bytes of one identifier record.
pub open spec fn id_bytes(id: Identifier) -> Seq<u8> {
    spec_u64_to_le_bytes(id.text_begin as u64) + spec_u64_to_le_bytes(id.text_len as u64)
}

/// The identifier section: the records back to back, in first-seen order.
pub open spec fn ids_bytes(ids: Seq<Identifier>) -> Seq<u8>
    decreases ids.len(),
{
    if ids.len() == 0 {
        Seq::empty()
    } else {
        ids_bytes(ids.drop_last()) + id_bytes(ids.last())
    }
}

/// The header: `{offset, len}` for the token, identifier and text sections.
pub open spec fn header_bytes(ntok: int, nid: int, ntext: int) -> Seq<u8> {
    spec_u64_to_le_bytes(48) + spec_u64_to_le_bytes(ntok as u64) + spec_u64_to_le_bytes(
        (48 + 41 * ntok) as u64,
    ) + spec_u64_to_le_bytes(nid as u64) + spec_u64_to_le_bytes((48 + 41 * ntok + 16 * nid) as u64)
        + spec_u64_to_le_bytes(ntext as u64)
}

/// The whole persisted buffer for a scanner output.
pub open spec fn enc_spec(ts: Seq<Token>, ids: Seq<Identifier>, text: Seq<u8>) -> Seq<u8> {
    header_bytes(ts.len() as int, ids.len() as int, text.len() as int) + tokens_bytes(ts)
        + ids_bytes(ids) + text
}

/// Each section's byte length.
pub proof fn lemma_tokens_bytes_len(ts: Seq<Token>)
    ensures
        tokens_bytes(ts).len() == 41 * ts.len(),
    decreases ts.len(),
{
    lemma_auto_spec_u64_to_from_le_bytes();
    if ts.len() > 0 {
        lemma_tokens_bytes_len(ts.drop_last());
    }
}

/// Each section's byte length.
pub proof fn lemma_ids_bytes_len(ids: Seq<Identifier>)
    ensures
        ids_bytes(ids).len() == 16 * ids.len(),
    decreases ids.len(),
{
    lemma_auto_spec_u64_to_from_le_bytes();
    if ids.len() > 0 {
        lemma_ids_bytes_len(ids.drop_last());
    }
}

/// Record `k` occupies exactly the bytes `[41k, 41k + 41)` of the token
/// section.
pub proof fn lemma_tokens_bytes_slice(ts: Seq<Token>, k: int)
    requires
        0 <= k < ts.len(),
    ensures
        tokens_bytes(ts).subrange(41 * k, 41 * k + 41) == token_bytes(ts[k]),
    decreases ts.len(),
{
    lemma_tokens_bytes_len(ts);
    lemma_tokens_bytes_len(ts.drop_last());
    if k == ts.len() - 1 {
        assert(tokens_bytes(ts).subrange(41 * k, 41 * k + 41) =~= token_bytes(ts.last()));
    } else {
        lemma_tokens_bytes_slice(ts.drop_last(), k);
        assert(tokens_bytes(ts).subrange(41 * k, 41 * k + 41) =~= tokens_bytes(
            ts.drop_last(),
        ).subrange(41 * k, 41 * k + 41));
    }
}

/// Record `k` occupies exactly the bytes `[16k, 16k + 16)` of the identifier
/// section.
pub proof fn lemma_ids_bytes_slice(ids: Seq<Identifier>, k: int)
    requires
        0 <= k < ids.len(),
    ensures
        ids_bytes(ids).subrange(16 * k, 16 * k + 16) == id_bytes(ids[k]),
    decreases ids.len(),
{
    lemma_ids_bytes_len(ids);
    lemma_ids_bytes_len(ids.drop_last());
    if k == ids.len() - 1 {
        assert(ids_bytes(ids).subrange(16 * k, 16 * k + 16) =~= id_bytes(ids.last()));
    } else {
        lemma_ids_bytes_slice(ids.drop_last(), k);
        assert(ids_bytes(ids).subrange(16 * k, 16 * k + 16) =~= ids_bytes(ids.drop_last()).subrange(
            16 * k,
            16 * k + 16,
        ));
    }
}

fn push_u64(buf: &mut Vec<u8>, x: u64)
    ensures
        final(buf)@ == old(buf)@ + spec_u64_to_le_bytes(x),
{
    let mut b = u64_to_le_bytes(x);
    buf.append(&mut b);
}

fn token_repr_exec(k: &TokenKind) -> (r: (u8, u64, u64, u64))
    ensures
        r == token_repr(*k),
{
    match k {
        TokenKind::IntegerConstant(v) => (0, *v as u64, 0, 0),
        TokenKind::FloatingConstant(f) => (1, f.int_part as u64, f.frac_num, f.frac_len),
        TokenKind::Id(x) => (2, *x as u64, 0, 0),
        TokenKind::If => (3, 0, 0, 0),
        TokenKind::Else => (4, 0, 0, 0),
        TokenKind::While => (5, 0, 0, 0),
        TokenKind::For => (6, 0, 0, 0),
        TokenKind::Do => (7, 0, 0, 0),
        TokenKind::Qualifier(q) => {
            let qa: u64 = match q {
                QualifierKind::Void => 0,
                QualifierKind::Int => 1,
                QualifierKind::Double => 2,
            };
            (8, qa, 0, 0)
        },
        TokenKind::Plus => (9, 0, 0, 0),
        TokenKind::Minus => (10, 0, 0, 0),
        TokenKind::Star => (11, 0, 0, 0),
        TokenKind::Divide => (12, 0, 0, 0),
        TokenKind::Relop(rk) => {
            let ra: u64 = match rk {
                RelopKind::Assign => 0,
                RelopKind::Gt => 1,
                RelopKind::Lt => 2,
                RelopKind::Ge => 3,
                RelopKind::Le => 4,
                RelopKind::Neq => 5,
                RelopKind::Eq => 6,
            };
            (13, ra, 0, 0)
        },
        TokenKind::LeftBrace => (14, 0, 0, 0),
        TokenKind::RightBrace => (15, 0, 0, 0),
        TokenKind::LeftParen => (16, 0, 0, 0),
        TokenKind::RightParen => (17, 0, 0, 0),
        TokenKind::LeftSqBracket => (18, 0, 0, 0),
        TokenKind::RightSqBracket => (19, 0, 0, 0),
        TokenKind::Semicolon => (20, 0, 0, 0),
        TokenKind::Comma => (21, 0, 0, 0),
        TokenKind::Not => (22, 0, 0, 0),
        TokenKind::Continue => (23, 0, 0, 0),
        TokenKind::Break => (24, 0, 0, 0),
        TokenKind::Return => (25, 0, 0, 0),
        TokenKind::And => (26, 0, 0, 0),
        TokenKind::Or => (27, 0, 0, 0),
        TokenKind::BitAnd => (28, 0, 0, 0),
        TokenKind::BitOr => (29, 0, 0, 0),
        TokenKind::BitNot => (30, 0, 0, 0),
    }
}

fn push_token(buf: &mut Vec<u8>, t: &Token)
    ensures
        final(buf)@ == old(buf)@ + token_bytes(*t),
{
    let r = token_repr_exec(&t.kind);
    buf.push(r.0);
    push_u64(buf, r.1);
    push_u64(buf, r.2);
    push_u64(buf, r.3);
    push_u64(buf, t.pos.line as u64);
    push_u64(buf, t.pos.col as u64);
    proof {
        assert(final(buf)@ =~= old(buf)@ + token_bytes(*t));
    }
}

/// Serializes a scanner output into the persisted byte layout.
pub fn output(lexer_output: &LexerOutput) -> (buf: Vec<u8>)
    requires
        48 + 41 * lexer_output.tokens@.len() + 16 * lexer_output.id_table@.len()
            + lexer_output.text@.len() <= usize::MAX,
    ensures
        buf@ == enc_spec(lexer_output.tokens@, lexer_output.id_table@, lexer_output.text@),
{
    let ntok = lexer_output.tokens.len();
    let nid = lexer_output.id_table.len();
    let ntext = lexer_output.text.len();
    let id_off = HEADER_SIZE + ntok * TOKEN_RECORD_SIZE;
    let text_off = id_off + nid * ID_RECORD_SIZE;
    let mut buf: Vec<u8> = Vec::new();
    push_u64(&mut buf, 48);
    push_u64(&mut buf, ntok as u64);
    push_u64(&mut buf, id_off as u64);
    push_u64(&mut buf, nid as u64);
    push_u64(&mut buf, text_off as u64);
    push_u64(&mut buf, ntext as u64);
    let ghost header: Seq<u8> = header_bytes(ntok as int, nid as int, ntext as int);
    proof {
        assert(buf@ =~= header);
    }
    for m in 0..ntok
        invariant
            ntok == lexer_output.tokens@.len(),
            buf@ == header + tokens_bytes(lexer_output.tokens@.take(m as int)),
    {
        let ghost pre = lexer_output.tokens@.take(m as int);
        push_token(&mut buf, &lexer_output.tokens[m]);
        proof {
            assert(lexer_output.tokens@.take(m + 1).drop_last() =~= pre);
            assert(lexer_output.tokens@.take(m + 1).last() == lexer_output.tokens@[m as int]);
            assert(buf@ =~= header + tokens_bytes(lexer_output.tokens@.take(m + 1)));
        }
    }
    proof {
        assert(lexer_output.tokens@.take(ntok as int) =~= lexer_output.tokens@);
    }
    let ghost with_toks: Seq<u8> = buf@;
    for m in 0..nid
        invariant
            nid == lexer_output.id_table@.len(),
            buf@ == with_toks + ids_bytes(lexer_output.id_table@.take(m as int)),
    {
        let ghost pre = lexer_output.id_table@.take(m as int);
        let id = lexer_output.id_table[m];
        push_u64(&mut buf, id.text_begin as u64);
        push_u64(&mut buf, id.text_len as u64);
        proof {
            assert(lexer_output.id_table@.take(m + 1).drop_last() =~= pre);
            assert(lexer_output.id_table@.take(m + 1).last() == lexer_output.id_table@[m as int]);
            assert(buf@ =~= with_toks + ids_bytes(lexer_output.id_table@.take(m + 1)));
        }
    }
    proof {
        assert(lexer_output.id_table@.take(nid as int) =~= lexer_output.id_table@);
    }
    let ghost with_ids: Seq<u8> = buf@;
    for m in 0..ntext
        invariant
            ntext == lexer_output.text@.len(),
            buf@ == with_ids + lexer_output.text@.take(m as int),
    {
        buf.push(lexer_output.text[m]);
        proof {
            assert(lexer_output.text@.take(m + 1) =~= lexer_output.text@.take(m as int).push(
                lexer_output.text@[m as int],
            ));
            assert(buf@ =~= with_ids + lexer_output.text@.take(m + 1));
        }
    }
    proof {
        assert(lexer_output.text@.take(ntext as int) =~= lexer_output.text@);
        assert(buf@ =~= enc_spec(lexer_output.tokens@, lexer_output.id_table@, lexer_output.text@));
    }
    buf
}

/// The token decoded from the 41 bytes at `off`, or `None` when the tag or a
/// field is out of range.
pub open spec fn dec_record(b: Seq<u8>, off: int) -> Option<Token> {
    let tag = b[off];
    let a = spec_u64_from_le_bytes(b.subrange(off + 1, off + 9));
    let bb = spec_u64_from_le_bytes(b.subrange(off + 9, off + 17));
    let cc = spec_u64_from_le_bytes(b.subrange(off + 17, off + 25));
    let line = spec_u64_from_le_bytes(b.subrange(off + 25, off + 33));
    let col = spec_u64_from_le_bytes(b.subrange(off + 33, off + 41));
    if line <= usize::MAX && col <= usize::MAX {
        match token_unrepr(tag, a, bb, cc) {
            Some(k) => Some(
                Token { kind: k, pos: Position { line: line as usize, col: col as usize } },
            ),
            None => None,
        }
    } else {
        None
    }
}

/// The `n` token records starting at `off`.
pub open spec fn dec_tokens(b: Seq<u8>, off: int, n: int) -> Option<Seq<Token>>
    decreases n,
{
    if n <= 0 {
        Some(Seq::empty())
    } else {
        match dec_record(b, off) {
            None => None,
            Some(t) => match dec_tokens(b, off + 41, n - 1) {
                None => None,
                Some(rest) => Some(seq![t] + rest),
            },
        }
    }
}

/// The `n` identifier records starting at `off`, or `None` when a field does
/// not fit the platform's `usize`.
pub open spec fn dec_ids(b: Seq<u8>, off: int, n: int) -> Option<Seq<Identifier>>
    decreases n,
{
    if n <= 0 {
        Some(Seq::empty())
    } else {
        let begin = spec_u64_from_le_bytes(b.subrange(off, off + 8));
        let len = spec_u64_from_le_bytes(b.subrange(off + 8, off + 16));
        if begin <= usize::MAX && len <= usize::MAX {
            match dec_ids(b, off + 16, n - 1) {
                None => None,
                Some(rest) => Some(
                    seq![Identifier { text_begin: begin as usize, text_len: len as usize }] + rest,
                ),
            }
        } else {
            None
        }
    }
}

/// The decoding of a whole persisted buffer: the tokens, the identifier
/// table and the text bytes, or the reason the buffer was rejected.
pub open spec fn dec_spec(b: Seq<u8>) -> Result<(Seq<Token>, Seq<Identifier>, Seq<u8>), DecodeError> {
    if b.len() < 48 {
        Err(DecodeError::Truncated)
    } else {
        let tok_off = spec_u64_from_le_bytes(b.subrange(0, 8));
        let ntok = spec_u64_from_le_bytes(b.subrange(8, 16));
        let id_off = spec_u64_from_le_bytes(b.subrange(16, 24));
        let nid = spec_u64_from_le_bytes(b.subrange(24, 32));
        let text_off = spec_u64_from_le_bytes(b.subrange(32, 40));
        let ntext = spec_u64_from_le_bytes(b.subrange(40, 48));
        if tok_off > usize::MAX || ntok > usize::MAX || id_off > usize::MAX || nid > usize::MAX
            || text_off > usize::MAX || ntext > usize::MAX {
            Err(DecodeError::Truncated)
        } else if ntok > (b.len() - 48) / 41 {
            Err(DecodeError::Truncated)
        } else if nid > (b.len() - 48 - 41 * ntok) / 16 {
            Err(DecodeError::Truncated)
        } else if ntext > b.len() - 48 - 41 * ntok - 16 * nid {
            Err(DecodeError::Truncated)
        } else if tok_off != 48 || id_off != 48 + 41 * ntok || text_off != 48 + 41 * ntok + 16
            * nid {
            Err(DecodeError::SectionMismatch)
        } else {
            match dec_tokens(b, 48, ntok as int) {
                None => Err(DecodeError::BadRecord),
                Some(ts) => match dec_ids(b, 48 + 41 * ntok, nid as int) {
                    None => Err(DecodeError::BadRecord),
                    Some(ids) => {
                        let text = b.subrange(text_off as int, text_off + ntext);
                        if !valid_utf8(text) {
                            Err(DecodeError::InvalidUtf8)
                        } else {
                            Ok((ts, ids, text))
                        }
                    },
                },
            }
        }
    }
}

proof fn lemma_dec_record_of_token(b: Seq<u8>, off: int, t: Token)
    requires
        0 <= off,
        off + 41 <= b.len(),
        b.subrange(off, off + 41) == token_bytes(t),
    ensures
        dec_record(b, off) == Some(t),
{
    lemma_auto_spec_u64_to_from_le_bytes();
    let r = token_repr(t.kind);
    let tb = token_bytes(t);
    assert(b[off] == tb[0]);
    assert(tb[0] == r.0);
    assert(b.subrange(off + 1, off + 9) =~= tb.subrange(1, 9));
    assert(tb.subrange(1, 9) =~= spec_u64_to_le_bytes(r.1));
    assert(b.subrange(off + 9, off + 17) =~= tb.subrange(9, 17));
    assert(tb.subrange(9, 17) =~= spec_u64_to_le_bytes(r.2));
    assert(b.subrange(off + 17, off + 25) =~= tb.subrange(17, 25));
    assert(tb.subrange(17, 25) =~= spec_u64_to_le_bytes(r.3));
    assert(b.subrange(off + 25, off + 33) =~= tb.subrange(25, 33));
    assert(tb.subrange(25, 33) =~= spec_u64_to_le_bytes(t.pos.line as u64));
    assert(b.subrange(off + 33, off + 41) =~= tb.subrange(33, 41));
    assert(tb.subrange(33, 41) =~= spec_u64_to_le_bytes(t.pos.col as u64));
    match t.kind {
        TokenKind::Qualifier(q) => {
            match q {
                QualifierKind::Void => {},
                QualifierKind::Int => {},
                QualifierKind::Double => {},
            }
        },
        TokenKind::Relop(rk) => {
            match rk {
                RelopKind::Assign => {},
                RelopKind::Gt => {},
                RelopKind::Lt => {},
                RelopKind::Ge => {},
                RelopKind::Le => {},
                RelopKind::Neq => {},
                RelopKind::Eq => {},
            }
        },
        _ => {},
    }
    assert(token_unrepr(r.0, r.1, r.2, r.3) == Some(t.kind));
}

proof fn lemma_dec_tokens_of(b: Seq<u8>, off: int, ts: Seq<Token>)
    requires
        0 <= off,
        off + 41 * ts.len() <= b.len(),
        forall|k: int|
            0 <= k < ts.len() ==> b.subrange(off + 41 * k, off + 41 * k + 41) == token_bytes(
                #[trigger] ts[k],
            ),
    ensures
        dec_tokens(b, off, ts.len() as int) == Some(ts),
    decreases ts.len(),
{
    if ts.len() == 0 {
        assert(Seq::<Token>::empty() =~= ts);
    } else {
        assert(b.subrange(off + 41 * 0, off + 41 * 0 + 41) == token_bytes(ts[0]));
        assert(b.subrange(off, off + 41) =~= b.subrange(off + 41 * 0, off + 41 * 0 + 41));
        lemma_dec_record_of_token(b, off, ts[0]);
        let tail = ts.drop_first();
        assert forall|k: int| 0 <= k < tail.len() implies b.subrange(
            off + 41 + 41 * k,
            off + 41 + 41 * k + 41,
        ) == token_bytes(#[trigger] tail[k]) by {
            assert(tail[k] == ts[k + 1]);
            assert(b.subrange(off + 41 * (k + 1), off + 41 * (k + 1) + 41) == token_bytes(
                ts[k + 1],
            ));
            assert(off + 41 + 41 * k == off + 41 * (k + 1));
        }
        lemma_dec_tokens_of(b, off + 41, tail);
        assert(seq![ts[0]] + tail =~= ts);
    }
}

proof fn lemma_dec_ids_of(b: Seq<u8>, off: int, ids: Seq<Identifier>)
    requires
        0 <= off,
        off + 16 * ids.len() <= b.len(),
        forall|k: int|
            0 <= k < ids.len() ==> b.subrange(off + 16 * k, off + 16 * k + 16) == id_bytes(
                #[trigger] ids[k],
            ),
    ensures
        dec_ids(b, off, ids.len() as int) == Some(ids),
    decreases ids.len(),
{
    lemma_auto_spec_u64_to_from_le_bytes();
    if ids.len() == 0 {
        assert(Seq::<Identifier>::empty() =~= ids);
    } else {
        assert(b.subrange(off + 16 * 0, off + 16 * 0 + 16) == id_bytes(ids[0]));
        let ib = id_bytes(ids[0]);
        assert(b.subrange(off, off + 8) =~= ib.subrange(0, 8));
        assert(ib.subrange(0, 8) =~= spec_u64_to_le_bytes(ids[0].text_begin as u64));
        assert(b.subrange(off + 8, off + 16) =~= ib.subrange(8, 16));
        assert(ib.subrange(8, 16) =~= spec_u64_to_le_bytes(ids[0].text_len as u64));
        let tail = ids.drop_first();
        assert forall|k: int| 0 <= k < tail.len() implies b.subrange(
            off + 16 + 16 * k,
            off + 16 + 16 * k + 16,
        ) == id_bytes(#[trigger] tail[k]) by {
            assert(tail[k] == ids[k + 1]);
            assert(b.subrange(off + 16 * (k + 1), off + 16 * (k + 1) + 16) == id_bytes(
                ids[k + 1],
            ));
            assert(off + 16 + 16 * k == off + 16 * (k + 1));
        }
        lemma_dec_ids_of(b, off + 16, tail);
        assert(seq![ids[0]] + tail =~= ids);
    }
}

/// The persistence round trip: decoding an encoded scanner output yields the
/// output unchanged, for every output whose text is valid UTF-8 (as every
/// scanned arena is), the empty one included.
pub proof fn lemma_round_trip(ts: Seq<Token>, ids: Seq<Identifier>, text: Seq<u8>)
    requires
        valid_utf8(text),
        48 + 41 * ts.len() + 16 * ids.len() + text.len() <= usize::MAX,
    ensures
        dec_spec(enc_spec(ts, ids, text)) == Ok::<(Seq<Token>, Seq<Identifier>, Seq<u8>),
            DecodeError,
        >((ts, ids, text)),
{
    lemma_auto_spec_u64_to_from_le_bytes();
    lemma_tokens_bytes_len(ts);
    lemma_ids_bytes_len(ids);
    let nt = ts.len() as int;
    let ni = ids.len() as int;
    let nx = text.len() as int;
    let b = enc_spec(ts, ids, text);
    let hdr = header_bytes(nt, ni, nx);
    assert(hdr.len() == 48);
    assert(b.len() == 48 + 41 * nt + 16 * ni + nx);
    assert(b.subrange(0, 8) =~= spec_u64_to_le_bytes(48));
    assert(b.subrange(8, 16) =~= spec_u64_to_le_bytes(nt as u64));
    assert(b.subrange(16, 24) =~= spec_u64_to_le_bytes((48 + 41 * nt) as u64));
    assert(b.subrange(24, 32) =~= spec_u64_to_le_bytes(ni as u64));
    assert(b.subrange(32, 40) =~= spec_u64_to_le_bytes((48 + 41 * nt + 16 * ni) as u64));
    assert(b.subrange(40, 48) =~= spec_u64_to_le_bytes(nx as u64));
    assert((b.len() - 48) / 41 >= nt) by {
        vstd::arithmetic::div_mod::lemma_div_multiples_vanish(nt, 41);
        vstd::arithmetic::div_mod::lemma_div_is_ordered(41 * nt, b.len() - 48, 41);
    }
    assert((b.len() - 48 - 41 * nt) / 16 >= ni) by {
        vstd::arithmetic::div_mod::lemma_div_multiples_vanish(ni, 16);
        vstd::arithmetic::div_mod::lemma_div_is_ordered(16 * ni, b.len() - 48 - 41 * nt, 16);
    }
    assert forall|k: int| 0 <= k < ts.len() implies b.subrange(48 + 41 * k, 48 + 41 * k + 41)
        == token_bytes(#[trigger] ts[k]) by {
        lemma_tokens_bytes_slice(ts, k);
        assert(b.subrange(48 + 41 * k, 48 + 41 * k + 41) =~= tokens_bytes(ts).subrange(
            41 * k,
            41 * k + 41,
        ));
    }
    lemma_dec_tokens_of(b, 48, ts);
    assert forall|k: int| 0 <= k < ids.len() implies b.subrange(
        48 + 41 * nt + 16 * k,
        48 + 41 * nt + 16 * k + 16,
    ) == id_bytes(#[trigger] ids[k]) by {
        lemma_ids_bytes_slice(ids, k);
        assert(b.subrange(48 + 41 * nt + 16 * k, 48 + 41 * nt + 16 * k + 16) =~= ids_bytes(
            ids,
        ).subrange(16 * k, 16 * k + 16));
    }
    lemma_dec_ids_of(b, 48 + 41 * nt, ids);
    assert(b.subrange(48 + 41 * nt + 16 * ni, 48 + 41 * nt + 16 * ni + nx) =~= text);
}

fn read_u64(buf: &Vec<u8>, off: usize) -> (x: u64)
    requires
        off + 8 <= buf@.len(),
    ensures
        x == spec_u64_from_le_bytes(buf@.subrange(off as int, off + 8)),
{
    let n = buf.len();
    proof {
        assert(off + 8 <= n);
    }
    let s = slice_subrange(buf.as_slice(), off, off + 8);
    u64_from_le_bytes(s)
}

fn token_unrepr_exec(tag: u8, a: u64, b: u64, c: u64) -> (r: Option<TokenKind>)
    ensures
        r == token_unrepr(tag, a, b, c),
{
    if tag == 0 {
        if a <= u32::MAX as u64 {
            Some(TokenKind::IntegerConstant(a as u32))
        } else {
            None
        }
    } else if tag == 1 {
        if a <= u32::MAX as u64 {
            Some(
                TokenKind::FloatingConstant(
                    FloatConst { int_part: a as u32, frac_num: b, frac_len: c },
                ),
            )
        } else {
            None
        }
    } else if tag == 2 {
        if a <= usize::MAX as u64 {
            Some(TokenKind::Id(a as usize))
        } else {
            None
        }
    } else if tag == 3 {
        Some(TokenKind::If)
    } else if tag == 4 {
        Some(TokenKind::Else)
    } else if tag == 5 {
        Some(TokenKind::While)
    } else if tag == 6 {
        Some(TokenKind::For)
    } else if tag == 7 {
        Some(TokenKind::Do)
    } else if tag == 8 {
        if a == 0 {
            Some(TokenKind::Qualifier(QualifierKind::Void))
        } else if a == 1 {
            Some(TokenKind::Qualifier(QualifierKind::Int))
        } else if a == 2 {
            Some(TokenKind::Qualifier(QualifierKind::Double))
        } else {
            None
        }
    } else if tag == 9 {
        Some(TokenKind::Plus)
    } else if tag == 10 {
        Some(TokenKind::Minus)
    } else if tag == 11 {
        Some(TokenKind::Star)
    } else if tag == 12 {
        Some(TokenKind::Divide)
    } else if tag == 13 {
        if a == 0 {
            Some(TokenKind::Relop(RelopKind::Assign))
        } else if a == 1 {
            Some(TokenKind::Relop(RelopKind::Gt))
        } else if a == 2 {
            Some(TokenKind::Relop(RelopKind::Lt))
        } else if a == 3 {
            Some(TokenKind::Relop(RelopKind::Ge))
        } else if a == 4 {
            Some(TokenKind::Relop(RelopKind::Le))
        } else if a == 5 {
            Some(TokenKind::Relop(RelopKind::Neq))
        } else if a == 6 {
            Some(TokenKind::Relop(RelopKind::Eq))
        } else {
            None
        }
    } else if tag == 14 {
        Some(TokenKind::LeftBrace)
    } else if tag == 15 {
        Some(TokenKind::RightBrace)
    } else if tag == 16 {
        Some(TokenKind::LeftParen)
    } else if tag == 17 {
        Some(TokenKind::RightParen)
    } else if tag == 18 {
        Some(TokenKind::LeftSqBracket)
    } else if tag == 19 {
        Some(TokenKind::RightSqBracket)
    } else if tag == 20 {
        Some(TokenKind::Semicolon)
    } else if tag == 21 {
        Some(TokenKind::Comma)
    } else if tag == 22 {
        Some(TokenKind::Not)
    } else if tag == 23 {
        Some(TokenKind::Continue)
    } else if tag == 24 {
        Some(TokenKind::Break)
    } else if tag == 25 {
        Some(TokenKind::Return)
    } else if tag == 26 {
        Some(TokenKind::And)
    } else if tag == 27 {
        Some(TokenKind::Or)
    } else if tag == 28 {
        Some(TokenKind::BitAnd)
    } else if tag == 29 {
        Some(TokenKind::BitOr)
    } else if tag == 30 {
        Some(TokenKind::BitNot)
    } else {
        None
    }
}

/// Checks that the bytes `[from, to)` of `buf` are valid UTF-8.
fn check_utf8(buf: &Vec<u8>, from: usize, to: usize) -> (r: bool)
    requires
        from <= to <= buf@.len(),
    ensures
        r == valid_utf8(buf@.subrange(from as int, to as int)),
{
    let ghost t: Seq<u8> = buf@.subrange(from as int, to as int);
    let mut i: usize = 0;
    while from + i < to
        invariant
            from + i <= to <= buf@.len(),
            t == buf@.subrange(from as int, to as int),
            vstd::utf8::partial_valid_utf8(t, i as int),
        decreases to - from - i,
    {
        let ghost rest: Seq<u8> = t.subrange(i as int, t.len() as int);
        let b0 = buf[from + i];
        assert(rest[0] == b0);
        let width: usize;
        if b0 < 0x80 {
            width = 1;
            proof {
                assert(vstd::utf8::valid_first_scalar(rest));
                assert(vstd::utf8::length_of_first_scalar(rest) == 1);
            }
        } else if 0xc0 <= b0 && b0 <= 0xdf {
            if to - (from + i) < 2 {
                proof {
                    lemma_rest_invalid(t, i as int);
                }
                return false;
            }
            let b1 = buf[from + i + 1];
            assert(rest[1] == b1);
            let cp: u32 = (((b0 & 0x1F) as u32) << 6) | ((b1 & 0x3f) as u32);
            proof {
                assert(((((b0 & 0x1F) as u32) << 6) | ((b1 & 0x3f) as u32)) <= 0x7ff)
                    by (bit_vector);
            }
            if !(0x80 <= b1 && b1 <= 0xbf) || cp < 0x80 {
                proof {
                    assert(!vstd::utf8::valid_first_scalar(rest));
                    lemma_rest_invalid(t, i as int);
                }
                return false;
            }
            width = 2;
            proof {
                assert(vstd::utf8::valid_first_scalar(rest));
                assert(vstd::utf8::length_of_first_scalar(rest) == 2);
            }
        } else if 0xe0 <= b0 && b0 <= 0xef {
            if to - (from + i) < 3 {
                proof {
                    lemma_rest_invalid(t, i as int);
                }
                return false;
            }
            let b1 = buf[from + i + 1];
            let b2 = buf[from + i + 2];
            assert(rest[1] == b1 && rest[2] == b2);
            let cp: u32 = (((b0 & 0x0F) as u32) << 12) | (((b1 & 0x3f) as u32) << 6) | ((b2
                & 0x3f) as u32);
            proof {
                assert(((((b0 & 0x0F) as u32) << 12) | (((b1 & 0x3f) as u32) << 6) | ((b2
                    & 0x3f) as u32)) <= 0xffff) by (bit_vector);
            }
            if !(0x80 <= b1 && b1 <= 0xbf) || !(0x80 <= b2 && b2 <= 0xbf) || cp < 0x800 || (0xd800
                <= cp && cp <= 0xdfff) {
                proof {
                    assert(!vstd::utf8::valid_first_scalar(rest));
                    lemma_rest_invalid(t, i as int);
                }
                return false;
            }
            width = 3;
            proof {
                assert(vstd::utf8::valid_first_scalar(rest));
                assert(vstd::utf8::length_of_first_scalar(rest) == 3);
            }
        } else if 0xf0 <= b0 && b0 <= 0xf7 {
            if to - (from + i) < 4 {
                proof {
                    lemma_rest_invalid(t, i as int);
                }
                return false;
            }
            let b1 = buf[from + i + 1];
            let b2 = buf[from + i + 2];
            let b3 = buf[from + i + 3];
            assert(rest[1] == b1 && rest[2] == b2 && rest[3] == b3);
            let cp: u32 = (((b0 & 0x07) as u32) << 18) | (((b1 & 0x3f) as u32) << 12) | (((b2
                & 0x3f) as u32) << 6) | ((b3 & 0x3f) as u32);
            if !(0x80 <= b1 && b1 <= 0xbf) || !(0x80 <= b2 && b2 <= 0xbf) || !(0x80 <= b3 && b3
                <= 0xbf) || cp < 0x10000 || cp > 0x10ffff {
                proof {
                    assert(!vstd::utf8::valid_first_scalar(rest));
                    lemma_rest_invalid(t, i as int);
                }
                return false;
            }
            width = 4;
            proof {
                assert(vstd::utf8::valid_first_scalar(rest));
                assert(vstd::utf8::length_of_first_scalar(rest) == 4);
            }
        } else {
            proof {
                assert(!vstd::utf8::valid_first_scalar(rest));
                lemma_rest_invalid(t, i as int);
            }
            return false;
        }
        proof {
            vstd::utf8::partial_valid_utf8_extend(t, i as int);
        }
        i = i + width;
    }
    proof {
        assert(t.subrange(0, i as int) =~= t);
    }
    true
}

/// A byte sequence whose valid prefix is followed by an invalid first scalar
/// is not valid UTF-8.
proof fn lemma_rest_invalid(t: Seq<u8>, i: int)
    requires
        0 <= i < t.len(),
        vstd::utf8::partial_valid_utf8(t, i),
        !vstd::utf8::valid_first_scalar(t.subrange(i, t.len() as int)),
    ensures
        !valid_utf8(t),
{
    let rest = t.subrange(i, t.len() as int);
    assert(rest.len() > 0);
    assert(!valid_utf8(rest));
    vstd::utf8::partial_valid_partial_invalid_utf8(t, i);
}

impl LexerOutput {
    /// Decodes a persisted buffer back into a scanner output, rejecting a
    /// buffer shorter than the header or than a declared section, sections
    /// that do not lie back to back, a malformed record, and a text section
    /// that is not valid UTF-8.
    #[verifier::loop_isolation(false)]
    pub fn try_from(buf: &Vec<u8>) -> (r: Result<LexerOutput, DecodeError>)
        ensures
            r is Ok ==> dec_spec(buf@) is Ok && r->Ok_0.tokens@ == dec_spec(buf@)->Ok_0.0
                && r->Ok_0.id_table@ == dec_spec(buf@)->Ok_0.1 && r->Ok_0.text@ == dec_spec(
                buf@,
            )->Ok_0.2,
            r is Err ==> dec_spec(buf@) == Err::<(Seq<Token>, Seq<Identifier>, Seq<u8>),
                DecodeError,
            >(r->Err_0),
    {
        if buf.len() < 48 {
            return Err(DecodeError::Truncated);
        }
        let tok_off = read_u64(buf, 0);
        let ntok64 = read_u64(buf, 8);
        let id_off = read_u64(buf, 16);
        let nid64 = read_u64(buf, 24);
        let text_off = read_u64(buf, 32);
        let ntext64 = read_u64(buf, 40);
        if tok_off > usize::MAX as u64 || ntok64 > usize::MAX as u64 || id_off > usize::MAX as u64
            || nid64 > usize::MAX as u64 || text_off > usize::MAX as u64 || ntext64
            > usize::MAX as u64 {
            return Err(DecodeError::Truncated);
        }
        let ntok = ntok64 as usize;
        let nid = nid64 as usize;
        let ntext = ntext64 as usize;
        if ntok > (buf.len() - 48) / 41 {
            return Err(DecodeError::Truncated);
        }
        proof {
            vstd::arithmetic::div_mod::lemma_fundamental_div_mod(buf@.len() - 48, 41);
            vstd::arithmetic::div_mod::lemma_mod_bound(buf@.len() - 48, 41);
            assert(41 * ntok <= buf@.len() - 48);
        }
        if nid > (buf.len() - 48 - 41 * ntok) / 16 {
            return Err(DecodeError::Truncated);
        }
        proof {
            vstd::arithmetic::div_mod::lemma_fundamental_div_mod(buf@.len() - 48 - 41 * ntok, 16);
            vstd::arithmetic::div_mod::lemma_mod_bound(buf@.len() - 48 - 41 * ntok, 16);
            assert(16 * nid <= buf@.len() - 48 - 41 * ntok);
        }
        if ntext > buf.len() - 48 - 41 * ntok - 16 * nid {
            return Err(DecodeError::Truncated);
        }
        proof {
            assert(48 + 41 * ntok + 16 * nid + ntext <= buf@.len());
        }
        if tok_off != 48 || id_off != 48 + 41 * ntok64 || text_off != 48 + 41 * ntok64 + 16
            * nid64 {
            return Err(DecodeError::SectionMismatch);
        }
        let mut tokens: Vec<Token> = Vec::new();
        let mut m: usize = 0;
        while m < ntok
            invariant
                m <= ntok,
                buf@.len() <= usize::MAX,
                48 + 41 * ntok + 16 * nid + ntext <= buf@.len(),
                dec_tokens(buf@, 48, ntok as int) == match dec_tokens(
                    buf@,
                    48 + 41 * m,
                    ntok - m,
                ) {
                    Some(rest) => Some(tokens@ + rest),
                    None => None::<Seq<Token>>,
                },
            decreases ntok - m,
        {
            let off = 48 + 41 * m;
            let tag = buf[off];
            let a = read_u64(buf, off + 1);
            let b = read_u64(buf, off + 9);
            let c = read_u64(buf, off + 17);
            let line64 = read_u64(buf, off + 25);
            let col64 = read_u64(buf, off + 33);
            if line64 > usize::MAX as u64 || col64 > usize::MAX as u64 {
                return Err(DecodeError::BadRecord);
            }
            let kind = match token_unrepr_exec(tag, a, b, c) {
                Some(k) => k,
                None => {
                    return Err(DecodeError::BadRecord);
                },
            };
            let t = Token {
                kind,
                pos: Position { line: line64 as usize, col: col64 as usize },
            };
            proof {
                assert(dec_record(buf@, off as int) == Some(t));
                match dec_tokens(buf@, off + 41, ntok - m - 1) {
                    Some(rest) => {
                        assert(tokens@ + (seq![t] + rest) =~= tokens@.push(t) + rest);
                    },
                    None => {},
                }
            }
            tokens.push(t);
            m = m + 1;
        }
        proof {
            assert(tokens@ + Seq::<Token>::empty() =~= tokens@);
        }
        let ids_base = 48 + 41 * ntok;
        let mut id_table: Vec<Identifier> = Vec::new();
        let mut m2: usize = 0;
        while m2 < nid
            invariant
                m2 <= nid,
                ids_base == 48 + 41 * ntok,
                buf@.len() <= usize::MAX,
                48 + 41 * ntok + 16 * nid + ntext <= buf@.len(),
                dec_ids(buf@, ids_base as int, nid as int) == match dec_ids(
                    buf@,
                    ids_base + 16 * m2,
                    nid - m2,
                ) {
                    Some(rest) => Some(id_table@ + rest),
                    None => None::<Seq<Identifier>>,
                },
            decreases nid - m2,
        {
            let off = ids_base + 16 * m2;
            let begin64 = read_u64(buf, off);
            let len64 = read_u64(buf, off + 8);
            if begin64 > usize::MAX as u64 || len64 > usize::MAX as u64 {
                return Err(DecodeError::BadRecord);
            }
            let id = Identifier { text_begin: begin64 as usize, text_len: len64 as usize };
            proof {
                match dec_ids(buf@, off + 16, nid - m2 - 1) {
                    Some(rest) => {
                        assert(id_table@ + (seq![id] + rest) =~= id_table@.push(id) + rest);
                    },
                    None => {},
                }
            }
            id_table.push(id);
            m2 = m2 + 1;
        }
        proof {
            assert(id_table@ + Seq::<Identifier>::empty() =~= id_table@);
        }
        let text_base = ids_base + 16 * nid;
        if !check_utf8(buf, text_base, text_base + ntext) {
            return Err(DecodeError::InvalidUtf8);
        }
        let mut text: Vec<u8> = Vec::new();
        let mut m3: usize = 0;
        while m3 < ntext
            invariant
                m3 <= ntext,
                text_base == 48 + 41 * ntok + 16 * nid,
                buf@.len() <= usize::MAX,
                48 + 41 * ntok + 16 * nid + ntext <= buf@.len(),
                text@ == buf@.subrange(text_base as int, text_base + m3),
            decreases ntext - m3,
        {
            text.push(buf[text_base + m3]);
            proof {
                assert(buf@.subrange(text_base as int, text_base + m3 + 1) =~= buf@.subrange(
                    text_base as int,
                    text_base + m3,
                ).push(buf@[text_base + m3]));
            }
            m3 = m3 + 1;
        }
        Ok(LexerOutput { tokens, id_table, text })
    }
}

} // verus!
