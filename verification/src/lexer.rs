//! The scanner: turns preprocessed text into positioned tokens, interning
//! identifier spellings along the way.
//!
//! A maximal digit run accumulates into one integer constant by repeated
//! `value * 10 + digit` with wraparound modulo 2^32 (fraction digits modulo
//! 2^64); a `.` not followed by a digit is an error. Two-character operators
//! use maximal munch. Any other run of characters that is neither whitespace
//! nor ASCII punctuation (underscores allowed) is a keyword or an interned
//! identifier.

use vstd::prelude::*;
use crate::token::{
    Position, Token, TokenKind, RelopKind, Identifier, spec_keyword, keyword_map,
};
use crate::error::{Error, ErrorKind};
use crate::intern::{Interner, arena_bytes, arena_offset};
use vstd::utf8::encode_utf8;

verus! {

/// A decimal digit.
pub open spec fn is_digit(c: char) -> bool {
    48 <= c as u32 && c as u32 <= 57
}

/// The value of a decimal digit.
pub open spec fn digit_val(c: char) -> int {
    c as u32 - 48
}

/// Exactly the characters `char::is_whitespace` accepts: the Unicode
/// `White_Space` set.
pub open spec fn spec_is_whitespace(c: char) -> bool {
    ||| (0x09 <= c as u32 && c as u32 <= 0x0d)
    ||| c as u32 == 0x20
    ||| c as u32 == 0x85
    ||| c as u32 == 0xa0
    ||| c as u32 == 0x1680
    ||| (0x2000 <= c as u32 && c as u32 <= 0x200a)
    ||| c as u32 == 0x2028
    ||| c as u32 == 0x2029
    ||| c as u32 == 0x202f
    ||| c as u32 == 0x205f
    ||| c as u32 == 0x3000
}

/// Exactly the characters `char::is_ascii_punctuation` accepts.
pub open spec fn spec_is_ascii_punct(c: char) -> bool {
    ||| (0x21 <= c as u32 && c as u32 <= 0x2f)
    ||| (0x3a <= c as u32 && c as u32 <= 0x40)
    ||| (0x5b <= c as u32 && c as u32 <= 0x60)
    ||| (0x7b <= c as u32 && c as u32 <= 0x7e)
}

/// True when `c` may continue an identifier run: not whitespace, and either
/// an underscore or not ASCII punctuation.
pub open spec fn is_ident_cont(c: char) -> bool {
    !spec_is_whitespace(c) && (c == '_' || !spec_is_ascii_punct(c))
}

/// The first index at or after `i` holding a non-digit (or the end of `s`).
pub open spec fn digit_run_end(s: Seq<char>, i: int) -> int
    decreases s.len() - i,
    when 0 <= i <= s.len()
{
    if i == s.len() {
        i
    } else if is_digit(s[i]) {
        digit_run_end(s, i + 1)
    } else {
        i
    }
}

/// The first index at or after `i` where an identifier run stops (or the end
/// of `s`).
pub open spec fn ident_run_end(s: Seq<char>, i: int) -> int
    decreases s.len() - i,
    when 0 <= i <= s.len()
{
    if i == s.len() {
        i
    } else if is_ident_cont(s[i]) {
        ident_run_end(s, i + 1)
    } else {
        i
    }
}

/// The digit run `[i, j)` of `s` folded into `acc` by
/// `acc * 10 + digit`, modulo 2^32.
pub open spec fn dec_val_u32(s: Seq<char>, i: int, j: int, acc: u32) -> u32
    decreases j - i,
    when 0 <= i <= j <= s.len()
{
    if i >= j {
        acc
    } else {
        dec_val_u32(s, i + 1, j, ((acc * 10 + digit_val(s[i])) % 0x1_0000_0000) as u32)
    }
}

/// The digit run `[i, j)` of `s` folded into `acc` by
/// `acc * 10 + digit`, modulo 2^64.
pub open spec fn dec_val_u64(s: Seq<char>, i: int, j: int, acc: u64) -> u64
    decreases j - i,
    when 0 <= i <= j <= s.len()
{
    if i >= j {
        acc
    } else {
        dec_val_u64(s, i + 1, j, ((acc * 10 + digit_val(s[i])) % 0x1_0000_0000_0000_0000) as u64)
    }
}

/// Digit and identifier runs end inside `s`, at or after where they start.
pub broadcast proof fn lemma_run_end_bounds(s: Seq<char>, i: int)
    requires
        0 <= i <= s.len(),
    ensures
        i <= #[trigger] digit_run_end(s, i) <= s.len(),
        i <= #[trigger] ident_run_end(s, i) <= s.len(),
    decreases s.len() - i,
{
    if i < s.len() {
        lemma_run_end_bounds(s, i + 1);
    }
}

/// The token kind of a single-character punctuation character.
pub open spec fn single_punct_kind(c: char) -> Option<TokenKind> {
    if c == '+' {
        Some(TokenKind::Plus)
    } else if c == '-' {
        Some(TokenKind::Minus)
    } else if c == '*' {
        Some(TokenKind::Star)
    } else if c == '/' {
        Some(TokenKind::Divide)
    } else if c == '(' {
        Some(TokenKind::LeftParen)
    } else if c == ')' {
        Some(TokenKind::RightParen)
    } else if c == '[' {
        Some(TokenKind::LeftSqBracket)
    } else if c == ']' {
        Some(TokenKind::RightSqBracket)
    } else if c == '{' {
        Some(TokenKind::LeftBrace)
    } else if c == '}' {
        Some(TokenKind::RightBrace)
    } else if c == ';' {
        Some(TokenKind::Semicolon)
    } else if c == ',' {
        Some(TokenKind::Comma)
    } else {
        None
    }
}

/// For `=`, `>`, `<` and `!`: the kind used alone and the kind used when an
/// `=` follows (maximal munch).
pub open spec fn relop_pair(c: char) -> Option<(TokenKind, TokenKind)> {
    if c == '=' {
        Some((TokenKind::Relop(RelopKind::Assign), TokenKind::Relop(RelopKind::Eq)))
    } else if c == '>' {
        Some((TokenKind::Relop(RelopKind::Gt), TokenKind::Relop(RelopKind::Ge)))
    } else if c == '<' {
        Some((TokenKind::Relop(RelopKind::Lt), TokenKind::Relop(RelopKind::Le)))
    } else if c == '!' {
        Some((TokenKind::Not, TokenKind::Relop(RelopKind::Neq)))
    } else {
        None
    }
}

/// The first index in `sps` holding `sp`, or -1 when `sp` is new.
pub open spec fn find_spelling(sps: Seq<Seq<char>>, sp: Seq<char>) -> int
    decreases sps.len(),
{
    if sps.len() == 0 {
        -1
    } else if sps[0] == sp {
        0
    } else {
        let r = find_spelling(sps.drop_first(), sp);
        if r < 0 {
            -1
        } else {
            r + 1
        }
    }
}

/// `find_spelling` finds exactly the members of `sps`, at an index holding
/// `sp`.
pub proof fn lemma_find_spelling(sps: Seq<Seq<char>>, sp: Seq<char>)
    ensures
        find_spelling(sps, sp) >= 0 <==> (exists|k: int| 0 <= k < sps.len() && sps[k] == sp),
        find_spelling(sps, sp) >= 0 ==> find_spelling(sps, sp) < sps.len() && sps[find_spelling(
            sps,
            sp,
        )] == sp,
    decreases sps.len(),
{
    if sps.len() > 0 {
        lemma_find_spelling(sps.drop_first(), sp);
        if sps[0] == sp {
        } else {
            let r = find_spelling(sps.drop_first(), sp);
            if r >= 0 {
                assert(sps[r + 1] == sps.drop_first()[r]);
            } else {
                if exists|k: int| 0 <= k < sps.len() && sps[k] == sp {
                    let k = choose|k: int| 0 <= k < sps.len() && sps[k] == sp;
                    assert(sps.drop_first()[k - 1] == sps[k]);
                }
            }
        }
    }
}

/// Prefixes one token onto a successful scanning result.
pub open spec fn cons_tok(
    t: Token,
    r: Result<(Seq<Token>, Seq<Seq<char>>), Error>,
) -> Result<(Seq<Token>, Seq<Seq<char>>), Error> {
    match r {
        Ok(p) => Ok((seq![t] + p.0, p.1)),
        Err(e) => Err(e),
    }
}

/// Prefixes already-scanned tokens onto a successful scanning result.
pub open spec fn cons_toks(
    acc: Seq<Token>,
    r: Result<(Seq<Token>, Seq<Seq<char>>), Error>,
) -> Result<(Seq<Token>, Seq<Seq<char>>), Error> {
    match r {
        Ok(p) => Ok((acc + p.0, p.1)),
        Err(e) => Err(e),
    }
}

proof fn lemma_cons_toks_tok(
    acc: Seq<Token>,
    t: Token,
    r: Result<(Seq<Token>, Seq<Seq<char>>), Error>,
)
    ensures
        cons_toks(acc, cons_tok(t, r)) == cons_toks(acc.push(t), r),
{
    match r {
        Ok(p) => {
            assert(acc + (seq![t] + p.0) =~= acc.push(t) + p.0);
        },
        Err(_) => {},
    }
}

/// The tokens scanned from the suffix of `s` starting at character `i`, with
/// the current 1-based `line` and `col` and the spellings interned so far;
/// also yields the final spelling table. One recursive step consumes one
/// whitespace character or one whole token.
pub open spec fn lex_from(
    s: Seq<char>,
    i: int,
    line: int,
    col: int,
    sps: Seq<Seq<char>>,
) -> Result<(Seq<Token>, Seq<Seq<char>>), Error>
    decreases s.len() - i,
    when 0 <= i <= s.len()
    via lex_from_dec
{
    if i == s.len() {
        Ok((Seq::empty(), sps))
    } else {
        let c = s[i];
        let pos = Position { line: line as usize, col: col as usize };
        if c == '\n' {
            lex_from(s, i + 1, line + 1, 1, sps)
        } else if spec_is_whitespace(c) {
            lex_from(s, i + 1, line, col + 1, sps)
        } else if c == '.' {
            let j = digit_run_end(s, i + 1);
            if j == i + 1 {
                Err(Error { pos, error_kind: ErrorKind::ExpectDigit })
            } else {
                let f = crate::token::FloatConst {
                    int_part: 0,
                    frac_num: dec_val_u64(s, i + 1, j, 0),
                    frac_len: (j - (i + 1)) as u64,
                };
                cons_tok(
                    Token { kind: TokenKind::FloatingConstant(f), pos },
                    lex_from(s, j, line, col + (j - i), sps),
                )
            }
        } else if is_digit(c) {
            let j = digit_run_end(s, i);
            let n = dec_val_u32(s, i, j, 0);
            if j < s.len() && s[j] == '.' {
                let k = digit_run_end(s, j + 1);
                let f = crate::token::FloatConst {
                    int_part: n,
                    frac_num: dec_val_u64(s, j + 1, k, 0),
                    frac_len: (k - (j + 1)) as u64,
                };
                cons_tok(
                    Token { kind: TokenKind::FloatingConstant(f), pos },
                    lex_from(s, k, line, col + (k - i), sps),
                )
            } else {
                cons_tok(
                    Token { kind: TokenKind::IntegerConstant(n), pos },
                    lex_from(s, j, line, col + (j - i), sps),
                )
            }
        } else {
            match single_punct_kind(c) {
                Some(k) => cons_tok(
                    Token { kind: k, pos },
                    lex_from(s, i + 1, line, col + 1, sps),
                ),
                None => match relop_pair(c) {
                    Some(pr) => {
                        if i + 1 < s.len() && s[i + 1] == '=' {
                            cons_tok(
                                Token { kind: pr.1, pos },
                                lex_from(s, i + 2, line, col + 2, sps),
                            )
                        } else {
                            cons_tok(
                                Token { kind: pr.0, pos },
                                lex_from(s, i + 1, line, col + 1, sps),
                            )
                        }
                    },
                    None => {
                        let j = ident_run_end(s, i + 1);
                        let sp = s.subrange(i, j);
                        match spec_keyword(sp) {
                            Some(k) => cons_tok(
                                Token { kind: k, pos },
                                lex_from(s, j, line, col + (j - i), sps),
                            ),
                            None => {
                                let f = find_spelling(sps, sp);
                                if f >= 0 {
                                    cons_tok(
                                        Token { kind: TokenKind::Id(f as usize), pos },
                                        lex_from(s, j, line, col + (j - i), sps),
                                    )
                                } else {
                                    cons_tok(
                                        Token { kind: TokenKind::Id(sps.len() as usize), pos },
                                        lex_from(s, j, line, col + (j - i), sps.push(sp)),
                                    )
                                }
                            },
                        }
                    },
                },
            }
        }
    }
}

#[via_fn]
proof fn lex_from_dec(s: Seq<char>, i: int, line: int, col: int, sps: Seq<Seq<char>>) {
    if 0 <= i && i < s.len() {
        lemma_run_end_bounds(s, i);
        lemma_run_end_bounds(s, i + 1);
        if i + 2 <= s.len() {
            lemma_run_end_bounds(s, i + 2);
        }
        let j = digit_run_end(s, i);
        if j < s.len() {
            lemma_run_end_bounds(s, j + 1);
        }
    }
}

/// The scan of a whole source text: its tokens and its spelling table.
pub open spec fn scan_spec(s: Seq<char>) -> Result<(Seq<Token>, Seq<Seq<char>>), Error> {
    lex_from(s, 0, 1, 1, Seq::empty())
}

/// The scanner's result: the tokens in scan order, the identifier table in
/// first-seen order, and the UTF-8 text arena the table's byte ranges point
/// into. This triple is self-contained and is the unit of persistence.
#[derive(Debug, Clone, PartialEq, Eq)]
pub struct LexerOutput {
    pub tokens: Vec<Token>,
    pub id_table: Vec<Identifier>,
    pub text: Vec<u8>,
}

/// `out` carries exactly the tokens `ts` and the arena and table of the
/// spellings `sps`.
pub open spec fn lexer_output_matches(out: LexerOutput, ts: Seq<Token>, sps: Seq<Seq<char>>) -> bool {
    &&& out.tokens@ == ts
    &&& out.text@ == arena_bytes(sps)
    &&& out.id_table@.len() == sps.len()
    &&& forall|k: int|
        0 <= k < sps.len() ==> (#[trigger] out.id_table@[k]).text_begin == arena_offset(sps, k)
            && out.id_table@[k].text_len == encode_utf8(sps[k]).len()
}

fn ws_char(c: char) -> (r: bool)
    ensures
        r == spec_is_whitespace(c),
{
    let u = c as u32;
    (0x09 <= u && u <= 0x0d) || u == 0x20 || u == 0x85 || u == 0xa0 || u == 0x1680 || (0x2000 <= u
        && u <= 0x200a) || u == 0x2028 || u == 0x2029 || u == 0x202f || u == 0x205f || u == 0x3000
}

fn digit_char(c: char) -> (r: bool)
    ensures
        r == is_digit(c),
{
    let u = c as u32;
    48 <= u && u <= 57
}

fn ident_cont_char(c: char) -> (r: bool)
    ensures
        r == is_ident_cont(c),
{
    let u = c as u32;
    let punct = (0x21 <= u && u <= 0x2f) || (0x3a <= u && u <= 0x40) || (0x5b <= u && u <= 0x60)
        || (0x7b <= u && u <= 0x7e);
    !ws_char(c) && (c == '_' || !punct)
}

fn single_punct(c: char) -> (r: Option<TokenKind>)
    ensures
        r == single_punct_kind(c),
{
    if c == '+' {
        Some(TokenKind::Plus)
    } else if c == '-' {
        Some(TokenKind::Minus)
    } else if c == '*' {
        Some(TokenKind::Star)
    } else if c == '/' {
        Some(TokenKind::Divide)
    } else if c == '(' {
        Some(TokenKind::LeftParen)
    } else if c == ')' {
        Some(TokenKind::RightParen)
    } else if c == '[' {
        Some(TokenKind::LeftSqBracket)
    } else if c == ']' {
        Some(TokenKind::RightSqBracket)
    } else if c == '{' {
        Some(TokenKind::LeftBrace)
    } else if c == '}' {
        Some(TokenKind::RightBrace)
    } else if c == ';' {
        Some(TokenKind::Semicolon)
    } else if c == ',' {
        Some(TokenKind::Comma)
    } else {
        None
    }
}

fn relop_kinds(c: char) -> (r: Option<(TokenKind, TokenKind)>)
    ensures
        r == relop_pair(c),
{
    if c == '=' {
        Some((TokenKind::Relop(RelopKind::Assign), TokenKind::Relop(RelopKind::Eq)))
    } else if c == '>' {
        Some((TokenKind::Relop(RelopKind::Gt), TokenKind::Relop(RelopKind::Ge)))
    } else if c == '<' {
        Some((TokenKind::Relop(RelopKind::Lt), TokenKind::Relop(RelopKind::Le)))
    } else if c == '!' {
        Some((TokenKind::Not, TokenKind::Relop(RelopKind::Neq)))
    } else {
        None
    }
}

proof fn lemma_dec32_snoc(s: Seq<char>, i: int, j: int, a: u32)
    requires
        0 <= i <= j < s.len(),
    ensures
        dec_val_u32(s, i, j + 1, a) == ((dec_val_u32(s, i, j, a) * 10 + digit_val(s[j]))
            % 0x1_0000_0000) as u32,
    decreases j - i,
{
    reveal_with_fuel(dec_val_u32, 3);
    if i < j {
        lemma_dec32_snoc(s, i + 1, j, ((a * 10 + digit_val(s[i])) % 0x1_0000_0000) as u32);
    }
}

proof fn lemma_dec64_snoc(s: Seq<char>, i: int, j: int, a: u64)
    requires
        0 <= i <= j < s.len(),
    ensures
        dec_val_u64(s, i, j + 1, a) == ((dec_val_u64(s, i, j, a) * 10 + digit_val(s[j]))
            % 0x1_0000_0000_0000_0000) as u64,
    decreases j - i,
{
    reveal_with_fuel(dec_val_u64, 3);
    if i < j {
        lemma_dec64_snoc(s, i + 1, j, ((a * 10 + digit_val(s[i])) % 0x1_0000_0000_0000_0000) as u64);
    }
}

/// Consumes the digit run starting at `start`, folding the digits into
/// `acc0` with wraparound at 2^32; yields the value and the run's end.
fn get_token_int(s: &Vec<char>, start: usize, acc0: u32) -> (r: (u32, usize))
    requires
        start <= s@.len(),
    ensures
        r.1 == digit_run_end(s@, start as int),
        r.0 == dec_val_u32(s@, start as int, r.1 as int, acc0),
        start <= r.1 <= s@.len(),
{
    proof {
        lemma_run_end_bounds(s@, start as int);
    }
    let mut j: usize = start;
    let mut acc: u32 = acc0;
    while j < s.len() && digit_char(s[j])
        invariant
            start <= j <= s@.len(),
            digit_run_end(s@, start as int) == digit_run_end(s@, j as int),
            acc == dec_val_u32(s@, start as int, j as int, acc0),
        decreases s@.len() - j,
    {
        let d: u32 = s[j] as u32 - 48;
        let w: u64 = acc as u64 * 10 + d as u64;
        proof {
            lemma_dec32_snoc(s@, start as int, j as int, acc0);
        }
        acc = (w % 0x1_0000_0000) as u32;
        j = j + 1;
        proof {
            lemma_run_end_bounds(s@, j as int);
        }
    }
    (acc, j)
}

/// Consumes the digit run starting at `start` (the digits after a decimal
/// point), folding them with wraparound at 2^64; yields the fraction
/// accumulator and the run's end.
fn get_token_after_decimal_point(s: &Vec<char>, start: usize) -> (r: (u64, usize))
    requires
        start <= s@.len(),
    ensures
        r.1 == digit_run_end(s@, start as int),
        r.0 == dec_val_u64(s@, start as int, r.1 as int, 0),
        start <= r.1 <= s@.len(),
{
    proof {
        lemma_run_end_bounds(s@, start as int);
    }
    let mut j: usize = start;
    let mut acc: u64 = 0;
    while j < s.len() && digit_char(s[j])
        invariant
            start <= j <= s@.len(),
            digit_run_end(s@, start as int) == digit_run_end(s@, j as int),
            acc == dec_val_u64(s@, start as int, j as int, 0),
        decreases s@.len() - j,
    {
        let d: u32 = s[j] as u32 - 48;
        let w: u128 = acc as u128 * 10 + d as u128;
        proof {
            lemma_dec64_snoc(s@, start as int, j as int, 0);
        }
        acc = (w % 0x1_0000_0000_0000_0000) as u64;
        j = j + 1;
        proof {
            lemma_run_end_bounds(s@, j as int);
        }
    }
    (acc, j)
}

/// The end of the identifier run starting at `start`.
fn get_ident_end(s: &Vec<char>, start: usize) -> (j: usize)
    requires
        start <= s@.len(),
    ensures
        j == ident_run_end(s@, start as int),
        start <= j <= s@.len(),
{
    proof {
        lemma_run_end_bounds(s@, start as int);
    }
    let mut j: usize = start;
    while j < s.len() && ident_cont_char(s[j])
        invariant
            start <= j <= s@.len(),
            ident_run_end(s@, start as int) == ident_run_end(s@, j as int),
        decreases s@.len() - j,
    {
        j = j + 1;
        proof {
            lemma_run_end_bounds(s@, j as int);
        }
    }
    j
}

/// The characters `[i, j)` of `s` as a fresh vector.
fn collect_range(s: &Vec<char>, i: usize, j: usize) -> (v: Vec<char>)
    requires
        i <= j <= s@.len(),
    ensures
        v@ == s@.subrange(i as int, j as int),
{
    let mut v: Vec<char> = Vec::new();
    let mut k: usize = i;
    while k < j
        invariant
            i <= k <= j <= s@.len(),
            v@ == s@.subrange(i as int, k as int),
        decreases j - k,
    {
        v.push(s[k]);
        proof {
            assert(s@.subrange(i as int, k + 1) =~= s@.subrange(i as int, k as int).push(
                s@[k as int],
            ));
        }
        k = k + 1;
    }
    v
}

/// Scans the preprocessed text `s` into tokens, an identifier table and a
/// text arena; fails with `ExpectDigit` at a `.` that no digit follows.
#[verifier::rlimit(100)]
pub fn scan(s: &Vec<char>) -> (r: Result<LexerOutput, Error>)
    requires
        s@.len() < usize::MAX,
    ensures
        r is Ok ==> scan_spec(s@) is Ok && lexer_output_matches(
            r->Ok_0,
            scan_spec(s@)->Ok_0.0,
            scan_spec(s@)->Ok_0.1,
        ),
        r is Err ==> scan_spec(s@) == Err::<(Seq<Token>, Seq<Seq<char>>), Error>(r->Err_0),
{
    let mut tokens: Vec<Token> = Vec::new();
    let mut inter = Interner::new();
    let mut i: usize = 0;
    let mut line: usize = 1;
    let mut col: usize = 1;
    proof {
        assert(inter.spellings_seq() =~= Seq::<Seq<char>>::empty());
        match lex_from(s@, 0, 1, 1, Seq::empty()) {
            Ok(p) => {
                assert(tokens@ + p.0 =~= p.0);
            },
            Err(_) => {},
        }
    }
    while i < s.len()
        invariant
            s@.len() < usize::MAX,
            0 <= i <= s@.len(),
            1 <= line <= 1 + i,
            1 <= col <= 1 + i,
            inter.wf(),
            scan_spec(s@) == cons_toks(
                tokens@,
                lex_from(s@, i as int, line as int, col as int, inter.spellings_seq()),
            ),
        decreases s@.len() - i,
    {
        let ghost pre_toks: Seq<Token> = tokens@;
        let ghost pre_i: int = i as int;
        let ghost pre_line: int = line as int;
        let ghost pre_col: int = col as int;
        let ghost pre_sps: Seq<Seq<char>> = inter.spellings_seq();
        let ghost stepped: Result<(Seq<Token>, Seq<Seq<char>>), Error> = lex_from(
            s@,
            pre_i,
            pre_line,
            pre_col,
            pre_sps,
        );
        let c = s[i];
        let pos = Position { line, col };
        if c == '\n' {
            i = i + 1;
            line = line + 1;
            col = 1;
        } else if ws_char(c) {
            i = i + 1;
            col = col + 1;
        } else if c == '.' {
            let (frac, j) = get_token_after_decimal_point(s, i + 1);
            if j == i + 1 {
                return Err(Error { pos, error_kind: ErrorKind::ExpectDigit });
            }
            let f = crate::token::FloatConst {
                int_part: 0,
                frac_num: frac,
                frac_len: (j - (i + 1)) as u64,
            };
            tokens.push(Token { kind: TokenKind::FloatingConstant(f), pos });
            proof {
                lemma_cons_toks_tok(
                    pre_toks,
                    Token { kind: TokenKind::FloatingConstant(f), pos },
                    lex_from(s@, j as int, pre_line, pre_col + (j - i), pre_sps),
                );
            }
            col = col + (j - i);
            i = j;
        } else if digit_char(c) {
            let (n, j) = get_token_int(s, i, 0);
            proof {
                lemma_run_end_bounds(s@, pre_i + 1);
                assert(j >= pre_i + 1);
            }
            if j < s.len() && s[j] == '.' {
                let (frac, k) = get_token_after_decimal_point(s, j + 1);
                let f = crate::token::FloatConst {
                    int_part: n,
                    frac_num: frac,
                    frac_len: (k - (j + 1)) as u64,
                };
                tokens.push(Token { kind: TokenKind::FloatingConstant(f), pos });
                proof {
                    lemma_cons_toks_tok(
                        pre_toks,
                        Token { kind: TokenKind::FloatingConstant(f), pos },
                        lex_from(s@, k as int, pre_line, pre_col + (k - i), pre_sps),
                    );
                }
                col = col + (k - i);
                i = k;
            } else {
                tokens.push(Token { kind: TokenKind::IntegerConstant(n), pos });
                proof {
                    lemma_cons_toks_tok(
                        pre_toks,
                        Token { kind: TokenKind::IntegerConstant(n), pos },
                        lex_from(s@, j as int, pre_line, pre_col + (j - i), pre_sps),
                    );
                }
                col = col + (j - i);
                i = j;
            }
        } else {
            match single_punct(c) {
                Some(k) => {
                    tokens.push(Token { kind: k, pos });
                    proof {
                        lemma_cons_toks_tok(
                            pre_toks,
                            Token { kind: k, pos },
                            lex_from(s@, pre_i + 1, pre_line, pre_col + 1, pre_sps),
                        );
                    }
                    i = i + 1;
                    col = col + 1;
                },
                None => {
                    match relop_kinds(c) {
                        Some(pr) => {
                            if i + 1 < s.len() && s[i + 1] == '=' {
                                tokens.push(Token { kind: pr.1, pos });
                                proof {
                                    lemma_cons_toks_tok(
                                        pre_toks,
                                        Token { kind: pr.1, pos },
                                        lex_from(s@, pre_i + 2, pre_line, pre_col + 2, pre_sps),
                                    );
                                }
                                i = i + 2;
                                col = col + 2;
                            } else {
                                tokens.push(Token { kind: pr.0, pos });
                                proof {
                                    lemma_cons_toks_tok(
                                        pre_toks,
                                        Token { kind: pr.0, pos },
                                        lex_from(s@, pre_i + 1, pre_line, pre_col + 1, pre_sps),
                                    );
                                }
                                i = i + 1;
                                col = col + 1;
                            }
                        },
                        None => {
                            let j = get_ident_end(s, i + 1);
                            let sp = collect_range(s, i, j);
                            match keyword_map(&sp) {
                                Some(k) => {
                                    tokens.push(Token { kind: k, pos });
                                    proof {
                                        lemma_cons_toks_tok(
                                            pre_toks,
                                            Token { kind: k, pos },
                                            lex_from(
                                                s@,
                                                j as int,
                                                pre_line,
                                                pre_col + (j - i),
                                                pre_sps,
                                            ),
                                        );
                                    }
                                },
                                None => {
                                    let idx = inter.intern(&sp);
                                    proof {
                                        lemma_find_spelling(pre_sps, sp@);
                                        if exists|k: int|
                                            0 <= k < pre_sps.len() && pre_sps[k] == sp@ {
                                            lemma_find_spelling_unique(pre_sps, sp@, idx as int);
                                        }
                                        lemma_cons_toks_tok(
                                            pre_toks,
                                            Token { kind: TokenKind::Id(idx), pos },
                                            lex_from(
                                                s@,
                                                j as int,
                                                pre_line,
                                                pre_col + (j - i),
                                                inter.spellings_seq(),
                                            ),
                                        );
                                    }
                                    tokens.push(Token { kind: TokenKind::Id(idx), pos });
                                },
                            }
                            col = col + (j - i);
                            i = j;
                        },
                    }
                },
            }
        }
    }
    proof {
        assert(tokens@ + Seq::<Token>::empty() =~= tokens@);
    }
    let out = LexerOutput { tokens, id_table: inter.id_table, text: inter.text };
    Ok(out)
}

proof fn lemma_lex_from_interning(s: Seq<char>, i: int, line: int, col: int, sps: Seq<Seq<char>>)
    requires
        0 <= i <= s.len(),
        forall|j: int, k: int| 0 <= j < k < sps.len() ==> sps[j] != sps[k],
        lex_from(s, i, line, col, sps) is Ok,
    ensures
        ({
            let p = lex_from(s, i, line, col, sps)->Ok_0;
            &&& sps.len() <= p.1.len()
            &&& p.1.take(sps.len() as int) == sps
            &&& forall|j: int, k: int| 0 <= j < k < p.1.len() ==> p.1[j] != p.1[k]
            &&& forall|m: int|
                0 <= m < p.0.len() ==> ((#[trigger] p.0[m]).kind matches TokenKind::Id(x) ==> x
                    < p.1.len())
        }),
    decreases s.len() - i,
{
    if i == s.len() {
        assert(sps.take(sps.len() as int) =~= sps);
    } else {
        let c = s[i];
        if c == '\n' {
            lemma_lex_from_interning(s, i + 1, line + 1, 1, sps);
        } else if spec_is_whitespace(c) {
            lemma_lex_from_interning(s, i + 1, line, col + 1, sps);
        } else if c == '.' {
            let j = digit_run_end(s, i + 1);
            lemma_run_end_bounds(s, i + 1);
            lemma_lex_from_interning(s, j, line, col + (j - i), sps);
        } else if is_digit(c) {
            let j = digit_run_end(s, i);
            lemma_run_end_bounds(s, i);
            if j < s.len() && s[j] == '.' {
                let k = digit_run_end(s, j + 1);
                lemma_run_end_bounds(s, j + 1);
                lemma_lex_from_interning(s, k, line, col + (k - i), sps);
            } else {
                lemma_lex_from_interning(s, j, line, col + (j - i), sps);
            }
        } else {
            match single_punct_kind(c) {
                Some(_) => {
                    lemma_lex_from_interning(s, i + 1, line, col + 1, sps);
                },
                None => match relop_pair(c) {
                    Some(_) => {
                        if i + 1 < s.len() && s[i + 1] == '=' {
                            lemma_lex_from_interning(s, i + 2, line, col + 2, sps);
                        } else {
                            lemma_lex_from_interning(s, i + 1, line, col + 1, sps);
                        }
                    },
                    None => {
                        let j = ident_run_end(s, i + 1);
                        lemma_run_end_bounds(s, i + 1);
                        let sp = s.subrange(i, j);
                        match spec_keyword(sp) {
                            Some(_) => {
                                lemma_lex_from_interning(s, j, line, col + (j - i), sps);
                            },
                            None => {
                                let f = find_spelling(sps, sp);
                                lemma_find_spelling(sps, sp);
                                if f >= 0 {
                                    lemma_lex_from_interning(s, j, line, col + (j - i), sps);
                                } else {
                                    let sps2 = sps.push(sp);
                                    assert(forall|k: int|
                                        0 <= k < sps.len() ==> #[trigger] sps2[k] == sps[k]);
                                    assert(forall|j2: int, k2: int|
                                        0 <= j2 < k2 < sps2.len() ==> sps2[j2] != sps2[k2]);
                                    lemma_lex_from_interning(s, j, line, col + (j - i), sps2);
                                    let p = lex_from(s, j, line, col + (j - i), sps2)->Ok_0;
                                    assert(p.1.take(sps.len() as int) =~= p.1.take(
                                        sps2.len() as int,
                                    ).take(sps.len() as int));
                                    assert(p.1.take(sps.len() as int) =~= sps);
                                }
                            },
                        }
                    },
                },
            }
        }
    }
}

/// The interning laws of a successful scan: the spelling table is
/// duplicate-free (two distinct entries never denote the same spelling, and
/// their UTF-8 arena ranges never hold the same bytes), and every identifier
/// token's index points into the table. Together with `lex_from`'s lookup
/// (`find_spelling` returns the one existing entry of a spelling), a
/// spelling scanned twice carries the same index both times.
pub proof fn lemma_scan_interning(s: Seq<char>)
    requires
        scan_spec(s) is Ok,
    ensures
        ({
            let p = scan_spec(s)->Ok_0;
            &&& forall|j: int, k: int| 0 <= j < k < p.1.len() ==> p.1[j] != p.1[k]
            &&& forall|j: int, k: int|
                0 <= j < k < p.1.len() ==> encode_utf8(p.1[j]) != encode_utf8(p.1[k])
            &&& forall|m: int|
                0 <= m < p.0.len() ==> ((#[trigger] p.0[m]).kind matches TokenKind::Id(x) ==> x
                    < p.1.len())
        }),
{
    lemma_lex_from_interning(s, 0, 1, 1, Seq::empty());
    let p = scan_spec(s)->Ok_0;
    assert forall|j: int, k: int| 0 <= j < k < p.1.len() implies encode_utf8(p.1[j])
        != encode_utf8(p.1[k]) by {
        if encode_utf8(p.1[j]) == encode_utf8(p.1[k]) {
            vstd::utf8::encode_utf8_decode_utf8(p.1[j]);
            vstd::utf8::encode_utf8_decode_utf8(p.1[k]);
            assert(p.1[j] == p.1[k]);
        }
    }
}

/// In a scanner output, every identifier-table entry addresses a byte range
/// that lies inside the text arena and holds exactly the UTF-8 encoding of
/// its spelling; the triple is self-contained.
pub proof fn lemma_output_table_ranges(out: LexerOutput, ts: Seq<Token>, sps: Seq<Seq<char>>)
    requires
        lexer_output_matches(out, ts, sps),
    ensures
        forall|k: int|
            0 <= k < out.id_table@.len() ==> (#[trigger] out.id_table@[k]).text_begin
                + out.id_table@[k].text_len <= out.text@.len() && out.text@.subrange(
                out.id_table@[k].text_begin as int,
                out.id_table@[k].text_begin + out.id_table@[k].text_len,
            ) == encode_utf8(sps[k]),
{
    assert forall|k: int|
        0 <= k < out.id_table@.len() implies (#[trigger] out.id_table@[k]).text_begin
        + out.id_table@[k].text_len <= out.text@.len() && out.text@.subrange(
        out.id_table@[k].text_begin as int,
        out.id_table@[k].text_begin + out.id_table@[k].text_len,
    ) == encode_utf8(sps[k]) by {
        crate::intern::lemma_arena_slice(sps, k);
    }
}

/// In a duplicate-free table, `find_spelling` is the only index holding `sp`.
pub proof fn lemma_find_spelling_unique(sps: Seq<Seq<char>>, sp: Seq<char>, idx: int)
    requires
        forall|j: int, k: int| 0 <= j < k < sps.len() ==> sps[j] != sps[k],
        0 <= idx < sps.len(),
        sps[idx] == sp,
    ensures
        find_spelling(sps, sp) == idx,
{
    lemma_find_spelling(sps, sp);
    let r = find_spelling(sps, sp);
    assert(r >= 0);
    if r != idx {
        if r < idx {
            assert(sps[r] != sps[idx]);
        } else {
            assert(sps[idx] != sps[r]);
        }
        assert(false);
    }
}

} // verus!
