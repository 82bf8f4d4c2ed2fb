//! The comment-stripping preprocessor.
//!
//! `//` comments are discarded up to (and excluding) the next newline; the
//! newline itself survives. `/* ... */` comments are replaced character by
//! character with spaces, and newlines inside them survive, so the line and
//! column of every character after a block comment are unchanged. Comments do
//! not nest; an unterminated block comment is an error positioned at the
//! comment's opening `/`.

use vstd::prelude::*;
use crate::token::Position;

verus! {

/// The preprocessor's scanning state between two characters.
#[derive(Debug, Clone, Copy, PartialEq, Eq, Structural)]
pub enum PpState {
    /// Ordinary text.
    Normal,
    /// A `/` was consumed at the recorded position; it may open a comment.
    AfterSlash(Position),
    /// Inside a `//` comment.
    LineComment,
    /// Inside a `/* */` comment opened at the recorded position.
    Block(Position),
    /// Inside a block comment, directly after a `*`.
    BlockStar(Position),
}

/// Prefixes `prefix` onto a successful preprocessing result.
pub open spec fn pp_prepend(prefix: Seq<char>, r: Result<Seq<char>, Position>) -> Result<
    Seq<char>,
    Position,
> {
    match r {
        Ok(o) => Ok(prefix + o),
        Err(p) => Err(p),
    }
}

/// The preprocessed output for the suffix of `s` starting at character `i`,
/// scanned in state `st` with the current 1-based `line` and `col`.
pub open spec fn pp_from(
    s: Seq<char>,
    i: int,
    line: int,
    col: int,
    st: PpState,
) -> Result<Seq<char>, Position>
    decreases s.len() - i,
    when 0 <= i <= s.len()
{
    if i == s.len() {
        match st {
            PpState::Normal => Ok(Seq::empty()),
            PpState::LineComment => Ok(Seq::empty()),
            PpState::AfterSlash(_) => Ok(seq!['/']),
            PpState::Block(p) => Err(p),
            PpState::BlockStar(p) => Err(p),
        }
    } else {
        let c = s[i];
        match st {
            PpState::Normal => {
                if c == '/' {
                    pp_from(
                        s,
                        i + 1,
                        line,
                        col + 1,
                        PpState::AfterSlash(Position { line: line as usize, col: col as usize }),
                    )
                } else if c == '\n' {
                    pp_prepend(seq!['\n'], pp_from(s, i + 1, line + 1, 1, PpState::Normal))
                } else {
                    pp_prepend(seq![c], pp_from(s, i + 1, line, col + 1, PpState::Normal))
                }
            },
            PpState::AfterSlash(p) => {
                if c == '/' {
                    pp_from(s, i + 1, line, col + 1, PpState::LineComment)
                } else if c == '*' {
                    pp_prepend(seq![' ', ' '], pp_from(s, i + 1, line, col + 1, PpState::Block(p)))
                } else if c == '\n' {
                    pp_prepend(seq!['/', '\n'], pp_from(s, i + 1, line + 1, 1, PpState::Normal))
                } else {
                    pp_prepend(seq!['/', c], pp_from(s, i + 1, line, col + 1, PpState::Normal))
                }
            },
            PpState::LineComment => {
                if c == '\n' {
                    pp_prepend(seq!['\n'], pp_from(s, i + 1, line + 1, 1, PpState::Normal))
                } else {
                    pp_from(s, i + 1, line, col + 1, PpState::LineComment)
                }
            },
            PpState::Block(p) => {
                if c == '*' {
                    pp_prepend(seq![' '], pp_from(s, i + 1, line, col + 1, PpState::BlockStar(p)))
                } else if c == '\n' {
                    pp_prepend(seq!['\n'], pp_from(s, i + 1, line + 1, 1, PpState::Block(p)))
                } else {
                    pp_prepend(seq![' '], pp_from(s, i + 1, line, col + 1, PpState::Block(p)))
                }
            },
            PpState::BlockStar(p) => {
                if c == '/' {
                    pp_prepend(seq![' '], pp_from(s, i + 1, line, col + 1, PpState::Normal))
                } else if c == '*' {
                    pp_prepend(seq![' '], pp_from(s, i + 1, line, col + 1, PpState::BlockStar(p)))
                } else if c == '\n' {
                    pp_prepend(seq!['\n'], pp_from(s, i + 1, line + 1, 1, PpState::Block(p)))
                } else {
                    pp_prepend(seq![' '], pp_from(s, i + 1, line, col + 1, PpState::Block(p)))
                }
            },
        }
    }
}

/// The preprocessed output (or the unterminated comment's position) for the
/// whole source `s`.
pub open spec fn pp_spec(s: Seq<char>) -> Result<Seq<char>, Position> {
    pp_from(s, 0, 1, 1, PpState::Normal)
}

/// Number of newline characters in `s` from index `i` on.
pub open spec fn count_nl_from(s: Seq<char>, i: int) -> int
    decreases s.len() - i,
    when 0 <= i <= s.len()
{
    if i == s.len() {
        0
    } else {
        (if s[i] == '\n' {
            1int
        } else {
            0int
        }) + count_nl_from(s, i + 1)
    }
}

/// Number of newline characters in `s`.
pub open spec fn count_nl(s: Seq<char>) -> int {
    count_nl_from(s, 0)
}

proof fn lemma_count_nl_shift(a: Seq<char>, b: Seq<char>, i: int)
    requires
        0 <= i <= b.len(),
    ensures
        count_nl_from(a + b, a.len() + i) == count_nl_from(b, i),
    decreases b.len() - i,
{
    if i < b.len() {
        lemma_count_nl_shift(a, b, i + 1);
    }
}

proof fn lemma_count_nl_prepend(a: Seq<char>, b: Seq<char>)
    ensures
        count_nl(a + b) == count_nl(a) + count_nl(b),
    decreases a.len(),
{
    if a.len() == 0 {
        assert(a + b =~= b);
        assert(count_nl(a) == 0);
    } else {
        lemma_count_nl_prepend(a.drop_first(), b);
        assert(a.drop_first() + b =~= (a + b).drop_first());
        lemma_count_nl_shift(seq![a[0]], a.drop_first() + b, 0);
        assert(seq![a[0]] + (a.drop_first() + b) =~= a + b);
        lemma_count_nl_shift(seq![a[0]], a.drop_first(), 0);
        assert(seq![a[0]] + a.drop_first() =~= a);
    }
}

/// The preprocessor never adds or removes a newline: whenever it succeeds on
/// the suffix of `s` starting at `i`, its output holds exactly as many `\n`
/// characters as that suffix.
proof fn lemma_pp_from_newlines(s: Seq<char>, i: int, line: int, col: int, st: PpState)
    requires
        0 <= i <= s.len(),
        pp_from(s, i, line, col, st) is Ok,
    ensures
        count_nl(pp_from(s, i, line, col, st)->Ok_0) == count_nl_from(s, i),
    decreases s.len() - i,
{
    reveal_with_fuel(count_nl_from, 3);
    if i == s.len() {
        match st {
            PpState::AfterSlash(_) => {
                assert(count_nl(seq!['/']) == 0);
            },
            _ => {},
        }
    } else {
        let c = s[i];
        match st {
            PpState::Normal => {
                if c == '/' {
                    lemma_pp_from_newlines(
                        s,
                        i + 1,
                        line,
                        col + 1,
                        PpState::AfterSlash(Position { line: line as usize, col: col as usize }),
                    );
                } else if c == '\n' {
                    lemma_pp_from_newlines(s, i + 1, line + 1, 1, PpState::Normal);
                    lemma_count_nl_prepend(seq!['\n'], pp_from(s, i + 1, line + 1, 1, PpState::Normal)->Ok_0);
                } else {
                    lemma_pp_from_newlines(s, i + 1, line, col + 1, PpState::Normal);
                    lemma_count_nl_prepend(seq![c], pp_from(s, i + 1, line, col + 1, PpState::Normal)->Ok_0);
                }
            },
            PpState::AfterSlash(p) => {
                if c == '/' {
                    lemma_pp_from_newlines(s, i + 1, line, col + 1, PpState::LineComment);
                } else if c == '*' {
                    lemma_pp_from_newlines(s, i + 1, line, col + 1, PpState::Block(p));
                    lemma_count_nl_prepend(seq![' ', ' '], pp_from(s, i + 1, line, col + 1, PpState::Block(p))->Ok_0);
                } else if c == '\n' {
                    lemma_pp_from_newlines(s, i + 1, line + 1, 1, PpState::Normal);
                    lemma_count_nl_prepend(seq!['/', '\n'], pp_from(s, i + 1, line + 1, 1, PpState::Normal)->Ok_0);
                } else {
                    lemma_pp_from_newlines(s, i + 1, line, col + 1, PpState::Normal);
                    lemma_count_nl_prepend(seq!['/', c], pp_from(s, i + 1, line, col + 1, PpState::Normal)->Ok_0);
                }
            },
            PpState::LineComment => {
                if c == '\n' {
                    lemma_pp_from_newlines(s, i + 1, line + 1, 1, PpState::Normal);
                    lemma_count_nl_prepend(seq!['\n'], pp_from(s, i + 1, line + 1, 1, PpState::Normal)->Ok_0);
                } else {
                    lemma_pp_from_newlines(s, i + 1, line, col + 1, PpState::LineComment);
                }
            },
            PpState::Block(p) => {
                if c == '*' {
                    lemma_pp_from_newlines(s, i + 1, line, col + 1, PpState::BlockStar(p));
                    lemma_count_nl_prepend(seq![' '], pp_from(s, i + 1, line, col + 1, PpState::BlockStar(p))->Ok_0);
                } else if c == '\n' {
                    lemma_pp_from_newlines(s, i + 1, line + 1, 1, PpState::Block(p));
                    lemma_count_nl_prepend(seq!['\n'], pp_from(s, i + 1, line + 1, 1, PpState::Block(p))->Ok_0);
                } else {
                    lemma_pp_from_newlines(s, i + 1, line, col + 1, PpState::Block(p));
                    lemma_count_nl_prepend(seq![' '], pp_from(s, i + 1, line, col + 1, PpState::Block(p))->Ok_0);
                }
            },
            PpState::BlockStar(p) => {
                if c == '/' {
                    lemma_pp_from_newlines(s, i + 1, line, col + 1, PpState::Normal);
                    lemma_count_nl_prepend(seq![' '], pp_from(s, i + 1, line, col + 1, PpState::Normal)->Ok_0);
                } else if c == '*' {
                    lemma_pp_from_newlines(s, i + 1, line, col + 1, PpState::BlockStar(p));
                    lemma_count_nl_prepend(seq![' '], pp_from(s, i + 1, line, col + 1, PpState::BlockStar(p))->Ok_0);
                } else if c == '\n' {
                    lemma_pp_from_newlines(s, i + 1, line + 1, 1, PpState::Block(p));
                    lemma_count_nl_prepend(seq!['\n'], pp_from(s, i + 1, line + 1, 1, PpState::Block(p))->Ok_0);
                } else {
                    lemma_pp_from_newlines(s, i + 1, line, col + 1, PpState::Block(p));
                    lemma_count_nl_prepend(seq![' '], pp_from(s, i + 1, line, col + 1, PpState::Block(p))->Ok_0);
                }
            },
        }
    }
}

/// The 1-based line number of character `j` of `s`.
pub open spec fn line_of(s: Seq<char>, j: int) -> int {
    1 + count_nl(s.take(j))
}

/// The index of the first character of the line character `j` stands on.
pub open spec fn line_start(s: Seq<char>, j: int) -> int
    decreases j,
    when 0 <= j
{
    if j == 0 {
        0
    } else if s[j - 1] == '\n' {
        j
    } else {
        line_start(s, j - 1)
    }
}

/// The 1-based column of character `j` of `s`, counted in characters.
pub open spec fn col_of(s: Seq<char>, j: int) -> int {
    j - line_start(s, j) + 1
}

/// The position of character `j` of `s`.
pub open spec fn pos_at(s: Seq<char>, j: int) -> Position {
    Position { line: line_of(s, j) as usize, col: col_of(s, j) as usize }
}

/// A block comment opens at character `j` of `s`.
pub open spec fn comment_open_at(s: Seq<char>, j: int) -> bool {
    0 <= j && j + 1 < s.len() && s[j] == '/' && s[j + 1] == '*'
}

proof fn lemma_pos_step(s: Seq<char>, i: int)
    requires
        0 <= i < s.len(),
    ensures
        s[i] != '\n' ==> line_of(s, i + 1) == line_of(s, i) && col_of(s, i + 1) == col_of(s, i)
            + 1,
        s[i] == '\n' ==> line_of(s, i + 1) == line_of(s, i) + 1 && col_of(s, i + 1) == 1,
{
    assert(s.take(i + 1) =~= s.take(i) + seq![s[i]]);
    lemma_count_nl_prepend(s.take(i), seq![s[i]]);
    reveal_with_fuel(count_nl_from, 2);
}

proof fn lemma_pp_from_err(s: Seq<char>, i: int, line: int, col: int, st: PpState)
    requires
        0 <= i <= s.len(),
        line == line_of(s, i),
        col == col_of(s, i),
        pp_from(s, i, line, col, st) is Err,
        st matches PpState::AfterSlash(p) ==> 1 <= i && s[i - 1] == '/' && p == pos_at(s, i - 1),
        st matches PpState::Block(p) ==> exists|j: int| comment_open_at(s, j) && p == pos_at(s, j),
        st matches PpState::BlockStar(p) ==> exists|j: int|
            comment_open_at(s, j) && p == pos_at(s, j),
    ensures
        exists|j: int|
            comment_open_at(s, j) && pp_from(s, i, line, col, st)->Err_0 == pos_at(s, j),
    decreases s.len() - i,
{
    if i == s.len() {
    } else {
        let c = s[i];
        lemma_pos_step(s, i);
        match st {
            PpState::Normal => {
                if c == '/' {
                    assert(Position { line: line as usize, col: col as usize } == pos_at(s, i));
                    lemma_pp_from_err(
                        s,
                        i + 1,
                        line,
                        col + 1,
                        PpState::AfterSlash(Position { line: line as usize, col: col as usize }),
                    );
                } else if c == '\n' {
                    lemma_pp_from_err(s, i + 1, line + 1, 1, PpState::Normal);
                } else {
                    lemma_pp_from_err(s, i + 1, line, col + 1, PpState::Normal);
                }
            },
            PpState::AfterSlash(p) => {
                if c == '/' {
                    lemma_pp_from_err(s, i + 1, line, col + 1, PpState::LineComment);
                } else if c == '*' {
                    assert(comment_open_at(s, i - 1));
                    assert(exists|j: int| comment_open_at(s, j) && p == pos_at(s, j));
                    lemma_pp_from_err(s, i + 1, line, col + 1, PpState::Block(p));
                } else if c == '\n' {
                    lemma_pp_from_err(s, i + 1, line + 1, 1, PpState::Normal);
                } else {
                    lemma_pp_from_err(s, i + 1, line, col + 1, PpState::Normal);
                }
            },
            PpState::LineComment => {
                if c == '\n' {
                    lemma_pp_from_err(s, i + 1, line + 1, 1, PpState::Normal);
                } else {
                    lemma_pp_from_err(s, i + 1, line, col + 1, PpState::LineComment);
                }
            },
            PpState::Block(p) => {
                if c == '*' {
                    lemma_pp_from_err(s, i + 1, line, col + 1, PpState::BlockStar(p));
                } else if c == '\n' {
                    lemma_pp_from_err(s, i + 1, line + 1, 1, PpState::Block(p));
                } else {
                    lemma_pp_from_err(s, i + 1, line, col + 1, PpState::Block(p));
                }
            },
            PpState::BlockStar(p) => {
                if c == '/' {
                    lemma_pp_from_err(s, i + 1, line, col + 1, PpState::Normal);
                } else if c == '*' {
                    lemma_pp_from_err(s, i + 1, line, col + 1, PpState::BlockStar(p));
                } else if c == '\n' {
                    lemma_pp_from_err(s, i + 1, line + 1, 1, PpState::Block(p));
                } else {
                    lemma_pp_from_err(s, i + 1, line, col + 1, PpState::Block(p));
                }
            },
        }
    }
}

/// A preprocessing failure is always an unterminated block comment, and its
/// position is the opening `/` of a `/*` of the source, with the character's
/// real line and column — never the end of the input.
pub proof fn lemma_preprocess_error_points_at_open_comment(s: Seq<char>)
    requires
        pp_spec(s) is Err,
    ensures
        exists|j: int| comment_open_at(s, j) && pp_spec(s)->Err_0 == pos_at(s, j),
{
    assert(s.take(0) =~= Seq::<char>::empty());
    assert(count_nl(Seq::<char>::empty()) == 0);
    lemma_pp_from_err(s, 0, 1, 1, PpState::Normal);
}

/// The preprocessor state with the recorded positions forgotten.
#[derive(Debug, Clone, Copy, PartialEq, Eq, Structural)]
pub enum PpMode {
    Normal,
    AfterSlash,
    LineComment,
    Block,
    BlockStar,
}

/// Forgets the position recorded in a preprocessor state.
pub open spec fn pp_mode(st: PpState) -> PpMode {
    match st {
        PpState::Normal => PpMode::Normal,
        PpState::AfterSlash(_) => PpMode::AfterSlash,
        PpState::LineComment => PpMode::LineComment,
        PpState::Block(_) => PpMode::Block,
        PpState::BlockStar(_) => PpMode::BlockStar,
    }
}

/// True when scanning the suffix of `s` from `i` in mode `m` ever stands
/// inside a `//` comment.
pub open spec fn pp_hits_line_comment(s: Seq<char>, i: int, m: PpMode) -> bool
    decreases s.len() - i,
    when 0 <= i <= s.len()
{
    if m is LineComment {
        true
    } else if i == s.len() {
        false
    } else {
        let c = s[i];
        match m {
            PpMode::Normal => pp_hits_line_comment(
                s,
                i + 1,
                if c == '/' {
                    PpMode::AfterSlash
                } else {
                    PpMode::Normal
                },
            ),
            PpMode::AfterSlash => {
                if c == '/' {
                    true
                } else if c == '*' {
                    pp_hits_line_comment(s, i + 1, PpMode::Block)
                } else {
                    pp_hits_line_comment(s, i + 1, PpMode::Normal)
                }
            },
            PpMode::LineComment => true,
            PpMode::Block => pp_hits_line_comment(
                s,
                i + 1,
                if c == '*' {
                    PpMode::BlockStar
                } else {
                    PpMode::Block
                },
            ),
            PpMode::BlockStar => {
                if c == '/' {
                    pp_hits_line_comment(s, i + 1, PpMode::Normal)
                } else if c == '*' {
                    pp_hits_line_comment(s, i + 1, PpMode::BlockStar)
                } else {
                    pp_hits_line_comment(s, i + 1, PpMode::Block)
                }
            },
        }
    }
}

/// True when `s` holds a `//` comment (outside of any block comment).
pub open spec fn has_line_comment(s: Seq<char>) -> bool {
    pp_hits_line_comment(s, 0, PpMode::Normal)
}

proof fn lemma_pp_from_block_only(s: Seq<char>, i: int, line: int, col: int, st: PpState)
    requires
        0 <= i <= s.len(),
        pp_from(s, i, line, col, st) is Ok,
        !pp_hits_line_comment(s, i, pp_mode(st)),
        st is AfterSlash ==> 1 <= i && s[i - 1] == '/',
    ensures
        ({
            let o = pp_from(s, i, line, col, st)->Ok_0;
            let start = if st is AfterSlash {
                i - 1
            } else {
                i
            };
            &&& o.len() == s.len() - start
            &&& forall|k: int|
                0 <= k < o.len() ==> (o[k] == s[start + k] || o[k] == ' ')
                    && (o[k] == '\n' <==> s[start + k] == '\n')
        }),
    decreases s.len() - i,
{
    if i == s.len() {
    } else {
        let c = s[i];
        match st {
            PpState::Normal => {
                if c == '/' {
                    lemma_pp_from_block_only(
                        s,
                        i + 1,
                        line,
                        col + 1,
                        PpState::AfterSlash(Position { line: line as usize, col: col as usize }),
                    );
                } else if c == '\n' {
                    lemma_pp_from_block_only(s, i + 1, line + 1, 1, PpState::Normal);
                } else {
                    lemma_pp_from_block_only(s, i + 1, line, col + 1, PpState::Normal);
                }
            },
            PpState::AfterSlash(p) => {
                if c == '/' {
                    assert(false);
                } else if c == '*' {
                    lemma_pp_from_block_only(s, i + 1, line, col + 1, PpState::Block(p));
                } else if c == '\n' {
                    lemma_pp_from_block_only(s, i + 1, line + 1, 1, PpState::Normal);
                } else {
                    lemma_pp_from_block_only(s, i + 1, line, col + 1, PpState::Normal);
                }
            },
            PpState::LineComment => {
                assert(false);
            },
            PpState::Block(p) => {
                if c == '*' {
                    lemma_pp_from_block_only(s, i + 1, line, col + 1, PpState::BlockStar(p));
                } else if c == '\n' {
                    lemma_pp_from_block_only(s, i + 1, line + 1, 1, PpState::Block(p));
                } else {
                    lemma_pp_from_block_only(s, i + 1, line, col + 1, PpState::Block(p));
                }
            },
            PpState::BlockStar(p) => {
                if c == '/' {
                    lemma_pp_from_block_only(s, i + 1, line, col + 1, PpState::Normal);
                } else if c == '*' {
                    lemma_pp_from_block_only(s, i + 1, line, col + 1, PpState::BlockStar(p));
                } else if c == '\n' {
                    lemma_pp_from_block_only(s, i + 1, line + 1, 1, PpState::Block(p));
                } else {
                    lemma_pp_from_block_only(s, i + 1, line, col + 1, PpState::Block(p));
                }
            },
        }
    }
}

/// On a source without `//` comments (for instance one whose only comment is
/// a block comment spanning any number of lines), the preprocessed output has
/// exactly the source's length, every character is either unchanged or
/// replaced by a space, and newlines are exactly where the source has them:
/// the line and column of every surviving character are unchanged.
pub proof fn lemma_preprocess_block_comments_keep_positions(s: Seq<char>)
    requires
        pp_spec(s) is Ok,
        !has_line_comment(s),
    ensures
        pp_spec(s)->Ok_0.len() == s.len(),
        forall|k: int|
            0 <= k < s.len() ==> (#[trigger] pp_spec(s)->Ok_0[k] == s[k] || pp_spec(s)->Ok_0[k]
                == ' ') && (pp_spec(s)->Ok_0[k] == '\n' <==> s[k] == '\n'),
{
    lemma_pp_from_block_only(s, 0, 1, 1, PpState::Normal);
}

/// Whenever preprocessing succeeds, the output holds exactly as many newline
/// characters as the source, so line numbers of all following text are kept.
pub proof fn lemma_preprocess_keeps_newline_count(s: Seq<char>)
    requires
        pp_spec(s) is Ok,
    ensures
        count_nl(pp_spec(s)->Ok_0) == count_nl(s),
{
    lemma_pp_from_newlines(s, 0, 1, 1, PpState::Normal);
}

proof fn lemma_pp_prepend_assoc(a: Seq<char>, b: Seq<char>, r: Result<Seq<char>, Position>)
    ensures
        pp_prepend(a, pp_prepend(b, r)) == pp_prepend(a + b, r),
{
    match r {
        Ok(o) => {
            assert(a + (b + o) =~= (a + b) + o);
        },
        Err(_) => {},
    }
}

/// Strips comments from `src` while keeping the position of every surviving
/// character; returns the position of the opening `/*` if a block comment is
/// never closed.
pub fn preprocess(src: &Vec<char>) -> (r: Result<Vec<char>, Position>)
    requires
        src@.len() < usize::MAX,
    ensures
        r is Ok ==> pp_spec(src@) == Ok::<Seq<char>, Position>(r->Ok_0@),
        r is Err ==> pp_spec(src@) == Err::<Seq<char>, Position>(r->Err_0),
{
    let mut out: Vec<char> = Vec::new();
    let mut i: usize = 0;
    let mut line: usize = 1;
    let mut col: usize = 1;
    let mut st: PpState = PpState::Normal;
    while i < src.len()
        invariant
            0 <= i <= src@.len(),
            src@.len() < usize::MAX,
            1 <= line <= 1 + i,
            1 <= col <= 1 + i,
            pp_spec(src@) == pp_prepend(out@, pp_from(src@, i as int, line as int, col as int, st)),
        decreases src@.len() - i,
    {
        let ghost pre_out: Seq<char> = out@;
        let ghost pre_line: int = line as int;
        let ghost pre_col: int = col as int;
        let ghost pre_st: PpState = st;
        let c = src[i];
        match st {
            PpState::Normal => {
                if c == '/' {
                    st = PpState::AfterSlash(Position { line, col });
                    col = col + 1;
                } else if c == '\n' {
                    out.push('\n');
                    line = line + 1;
                    col = 1;
                } else {
                    out.push(c);
                    col = col + 1;
                }
            },
            PpState::AfterSlash(p) => {
                if c == '/' {
                    st = PpState::LineComment;
                    col = col + 1;
                } else if c == '*' {
                    out.push(' ');
                    out.push(' ');
                    st = PpState::Block(p);
                    col = col + 1;
                } else if c == '\n' {
                    out.push('/');
                    out.push('\n');
                    st = PpState::Normal;
                    line = line + 1;
                    col = 1;
                } else {
                    out.push('/');
                    out.push(c);
                    st = PpState::Normal;
                    col = col + 1;
                }
            },
            PpState::LineComment => {
                if c == '\n' {
                    out.push('\n');
                    st = PpState::Normal;
                    line = line + 1;
                    col = 1;
                } else {
                    col = col + 1;
                }
            },
            PpState::Block(p) => {
                if c == '*' {
                    out.push(' ');
                    st = PpState::BlockStar(p);
                    col = col + 1;
                } else if c == '\n' {
                    out.push('\n');
                    line = line + 1;
                    col = 1;
                } else {
                    out.push(' ');
                    col = col + 1;
                }
            },
            PpState::BlockStar(p) => {
                if c == '/' {
                    out.push(' ');
                    st = PpState::Normal;
                    col = col + 1;
                } else if c == '*' {
                    out.push(' ');
                    col = col + 1;
                } else if c == '\n' {
                    out.push('\n');
                    st = PpState::Block(p);
                    line = line + 1;
                    col = 1;
                } else {
                    out.push(' ');
                    st = PpState::Block(p);
                    col = col + 1;
                }
            },
        }
        proof {
            let stepped = pp_from(src@, i as int, pre_line, pre_col, pre_st);
            let next = pp_from(src@, i + 1, line as int, col as int, st);
            let emitted = out@.subrange(pre_out.len() as int, out@.len() as int);
            assert(out@ =~= pre_out + emitted);
            if emitted.len() == 0 {
                assert(stepped == next);
                match next {
                    Ok(o) => {
                        assert(emitted + o =~= o);
                    },
                    Err(_) => {},
                }
            } else if emitted.len() == 1 {
                assert(emitted =~= seq![emitted[0]]);
                assert(stepped == pp_prepend(emitted, next));
            } else {
                assert(emitted =~= seq![emitted[0], emitted[1]]);
                assert(stepped == pp_prepend(emitted, next));
            }
            assert(stepped == pp_prepend(emitted, next));
            lemma_pp_prepend_assoc(pre_out, emitted, next);
        }
        i = i + 1;
    }
    match st {
        PpState::Normal => Ok(out),
        PpState::LineComment => Ok(out),
        PpState::AfterSlash(_) => {
            let ghost pre_out = out@;
            out.push('/');
            proof {
                assert(out@ =~= pre_out + seq!['/']);
            }
            Ok(out)
        },
        PpState::Block(p) => Err(p),
        PpState::BlockStar(p) => Err(p),
    }
}

} // verus!
