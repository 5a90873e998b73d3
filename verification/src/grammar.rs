//! The token at a position of a text, as a mathematical function.
//!
//! Nothing here runs. [`token_at`] says, for every text and every position
//! in it, which token starts there or why none does; the lexer is proved to
//! return exactly that.

use crate::error::Error;
use crate::token::{BinOpKind, CommentKind, IdentKind, LitKindView, TokenKindView, TokenView};
use crate::trusted::is_white_space;
use vstd::prelude::*;

verus! {

/// Spellings with the kind each one stands for.
pub type Table = Seq<(Seq<char>, TokenKindView)>;

pub open spec fn is_ident_start(c: char) -> bool {
    ('a' <= c && c <= 'z') || ('A' <= c && c <= 'Z') || c == '_'
}

pub open spec fn is_ident_continue(c: char) -> bool {
    is_ident_start(c) || ('0' <= c && c <= '9')
}

pub open spec fn ident_continue() -> spec_fn(char) -> bool {
    |c: char| is_ident_continue(c)
}

pub open spec fn whitespace() -> spec_fn(char) -> bool {
    |c: char| is_white_space(c)
}

pub open spec fn within_line() -> spec_fn(char) -> bool {
    |c: char| c != '\n'
}

/// Whether `text` stands in `input` at `pos`.
pub open spec fn starts_with(input: Seq<char>, pos: int, text: Seq<char>) -> bool {
    &&& 0 <= pos
    &&& pos + text.len() <= input.len()
    &&& input.subrange(pos, pos + text.len()) == text
}

/// Where the longest run of characters that satisfy `p` ends, if it starts
/// at `from`.
pub open spec fn run_end(input: Seq<char>, from: int, p: spec_fn(char) -> bool) -> int
    decreases input.len() - from,
{
    if 0 <= from < input.len() && p(input[from]) {
        run_end(input, from + 1, p)
    } else {
        from
    }
}

/// Whether the two characters that close a block comment stand at `at`.
pub open spec fn closes_block(input: Seq<char>, at: int) -> bool {
    0 <= at && at + 2 <= input.len() && input[at] == '*' && input[at + 1] == '/'
}

/// Where the first block closer at or after `from` starts; the length of
/// the text if there is none.
pub open spec fn block_closer(input: Seq<char>, from: int) -> int
    decreases input.len() - from,
{
    if from < 0 || from >= input.len() {
        input.len() as int
    } else if closes_block(input, from) {
        from
    } else {
        block_closer(input, from + 1)
    }
}

/// Where the quote `sign` that closes a quoted text stands, if the text
/// behind its opening quote starts at `from`; the length of the text if
/// nothing closes it. A backslash takes the character after it along, so
/// that a quote behind a backslash closes nothing.
pub open spec fn quote_closer(input: Seq<char>, from: int, sign: char) -> int
    decreases input.len() - from,
{
    if from < 0 || from >= input.len() {
        input.len() as int
    } else if input[from] == sign {
        from
    } else if input[from] == '\\' && from + 1 < input.len() {
        quote_closer(input, from + 2, sign)
    } else {
        quote_closer(input, from + 1, sign)
    }
}

/// Whether the quoted text that opens at `pos` is closed.
pub open spec fn quoted_terminated(input: Seq<char>, pos: nat, sign: char) -> bool {
    quote_closer(input, pos as int + 1, sign) < input.len()
}

/// The quoted text that opens at `pos`, without its quotes.
pub open spec fn quoted_text(input: Seq<char>, pos: nat, sign: char) -> Seq<char> {
    input.subrange(pos as int + 1, quote_closer(input, pos as int + 1, sign))
}

/// The quoted text that opens at `pos`, with its quotes.
pub open spec fn quoted_raw(input: Seq<char>, pos: nat, sign: char) -> Seq<char> {
    let close = quote_closer(input, pos as int + 1, sign);
    input.subrange(
        pos as int,
        if close < input.len() {
            close + 1
        } else {
            close
        },
    )
}

/// The kind of a word: that of the keyword it spells, or an identifier.
pub open spec fn keyword_kind(word: Seq<char>) -> TokenKindView {
    if word == "null"@ {
        TokenKindView::Lit(LitKindView::Null)
    } else if word == "true"@ || word == "false"@ {
        TokenKindView::Lit(LitKindView::Bool)
    } else if word == "let"@ {
        TokenKindView::Let
    } else if word == "mut"@ {
        TokenKindView::Mut
    } else if word == "if"@ {
        TokenKindView::If
    } else if word == "else"@ {
        TokenKindView::Else
    } else if word == "fn"@ {
        TokenKindView::Fn
    } else if word == "use"@ {
        TokenKindView::Use
    } else if word == "from"@ {
        TokenKindView::From
    } else if word == "enum"@ {
        TokenKindView::Enum
    } else if word == "in"@ {
        TokenKindView::In
    } else if word == "as"@ {
        TokenKindView::As
    } else if word == "mod"@ {
        TokenKindView::Mod
    } else if word == "class"@ {
        TokenKindView::Class
    } else if word == "extends"@ {
        TokenKindView::Extends
    } else if word == "nan"@ || word == "infinity"@ {
        TokenKindView::Lit(LitKindView::Num)
    } else if word == "while"@ {
        TokenKindView::While
    } else if word == "pub"@ {
        TokenKindView::Pub
    } else if word == "async"@ {
        TokenKindView::Async
    } else if word == "loop"@ {
        TokenKindView::Loop
    } else if word == "for"@ {
        TokenKindView::For
    } else if word == "yield"@ {
        TokenKindView::Yield
    } else if word == "return"@ {
        TokenKindView::Return
    } else if word == "continue"@ {
        TokenKindView::Continue
    } else if word == "break"@ {
        TokenKindView::Break
    } else {
        TokenKindView::Ident(IdentKind::Ident)
    }
}

/// The spellings that begin with `c` where `c` begins an operator; no
/// spelling for any other character.
pub open spec fn operators(c: char) -> Table {
    if c == '+' {
        seq![
            ("+"@, TokenKindView::BinOp(BinOpKind::Plus)),
            ("+="@, TokenKindView::BinOpEq(BinOpKind::Plus)),
        ]
    } else if c == '-' {
        seq![
            ("-"@, TokenKindView::BinOp(BinOpKind::Minus)),
            ("-="@, TokenKindView::BinOpEq(BinOpKind::Minus)),
        ]
    } else if c == '*' {
        seq![
            ("*"@, TokenKindView::BinOp(BinOpKind::Star)),
            ("*="@, TokenKindView::BinOpEq(BinOpKind::Star)),
        ]
    } else if c == '/' {
        seq![
            ("/"@, TokenKindView::BinOp(BinOpKind::Slash)),
            ("/="@, TokenKindView::BinOpEq(BinOpKind::Slash)),
        ]
    } else if c == '%' {
        seq![
            ("%"@, TokenKindView::BinOp(BinOpKind::Percent)),
            ("%="@, TokenKindView::BinOpEq(BinOpKind::Percent)),
        ]
    } else if c == '^' {
        seq![
            ("^"@, TokenKindView::BinOp(BinOpKind::Caret)),
            ("^="@, TokenKindView::BinOpEq(BinOpKind::Caret)),
        ]
    } else if c == '&' {
        seq![
            ("&"@, TokenKindView::BinOp(BinOpKind::And)),
            ("&="@, TokenKindView::BinOpEq(BinOpKind::And)),
            ("&&"@, TokenKindView::BinOp(BinOpKind::AndAnd)),
            ("&&="@, TokenKindView::BinOpEq(BinOpKind::AndAnd)),
        ]
    } else if c == '|' {
        seq![
            ("|"@, TokenKindView::BinOp(BinOpKind::Or)),
            ("|="@, TokenKindView::BinOpEq(BinOpKind::Or)),
            ("||"@, TokenKindView::BinOp(BinOpKind::OrOr)),
            ("||="@, TokenKindView::BinOpEq(BinOpKind::OrOr)),
        ]
    } else if c == '<' {
        seq![
            ("<"@, TokenKindView::Lt),
            ("<="@, TokenKindView::Le),
            ("<<"@, TokenKindView::BinOp(BinOpKind::ShiftL)),
            ("<<="@, TokenKindView::BinOpEq(BinOpKind::ShiftL)),
        ]
    } else if c == '>' {
        seq![
            (">"@, TokenKindView::Gt),
            (">="@, TokenKindView::Ge),
            (">>"@, TokenKindView::BinOp(BinOpKind::ShiftR)),
            (">>="@, TokenKindView::BinOpEq(BinOpKind::ShiftR)),
        ]
    } else if c == '!' {
        seq![("!"@, TokenKindView::Not), ("!="@, TokenKindView::Ne)]
    } else if c == '=' {
        seq![("="@, TokenKindView::Eq), ("=="@, TokenKindView::EqEq)]
    } else if c == '.' {
        seq![
            ("."@, TokenKindView::Dot),
            (".."@, TokenKindView::DotDot),
            ("..="@, TokenKindView::DotDotEq),
        ]
    } else {
        Seq::empty()
    }
}

/// The kind of a character that is a token by itself and begins no longer
/// one.
pub open spec fn delimiter_kind(c: char) -> Option<TokenKindView> {
    if c == '@' {
        Some(TokenKindView::At)
    } else if c == ',' {
        Some(TokenKindView::Comma)
    } else if c == ';' {
        Some(TokenKindView::Semi)
    } else if c == '(' {
        Some(TokenKindView::LParen)
    } else if c == ')' {
        Some(TokenKindView::RParen)
    } else if c == '{' {
        Some(TokenKindView::LBrace)
    } else if c == '}' {
        Some(TokenKindView::RBrace)
    } else if c == '[' {
        Some(TokenKindView::LBracket)
    } else if c == ']' {
        Some(TokenKindView::RBracket)
    } else {
        None
    }
}

/// Whether entry `i` of `table` is the one that wins at `pos`: its spelling
/// stands there, no spelling of the table that stands there is longer, and
/// no earlier entry has the same spelling.
pub open spec fn is_best_match(table: Table, input: Seq<char>, pos: int, i: int) -> bool {
    &&& 0 <= i < table.len()
    &&& starts_with(input, pos, table[i].0)
    &&& forall|j: int|
        0 <= j < table.len() && starts_with(input, pos, #[trigger] table[j].0)
            ==> table[j].0.len() <= table[i].0.len()
    &&& forall|j: int| 0 <= j < i ==> #[trigger] table[j].0 != table[i].0
}

/// Whether any spelling of `table` stands at `pos`.
pub open spec fn has_match(table: Table, input: Seq<char>, pos: int) -> bool {
    exists|i: int| 0 <= i < table.len() && starts_with(input, pos, #[trigger] table[i].0)
}

/// The entry of `table` that wins at `pos`, where a spelling stands there.
pub open spec fn best_match(table: Table, input: Seq<char>, pos: int) -> int {
    choose|i: int| is_best_match(table, input, pos, i)
}

/// The token that the longest spelling of `table` at `pos` gives; where no
/// spelling stands there, the character at `pos` is not valid.
pub open spec fn candidate_at(table: Table, input: Seq<char>, pos: nat) -> Result<
    TokenView,
    Error,
> {
    if has_match(table, input, pos as int) {
        let i = best_match(table, input, pos as int);
        Ok(TokenView { kind: table[i].1, raw: table[i].0, pos })
    } else if pos < input.len() {
        Err(Error::InvalidCharacter { chr: input[pos as int], pos: pos as usize })
    } else {
        Err(Error::OutOfRange)
    }
}

/// The end-of-input token, which covers nothing.
pub open spec fn eof_at(pos: nat) -> TokenView {
    TokenView { kind: TokenKindView::Eof, raw: Seq::empty(), pos }
}

/// The token of the one character at `pos`, with the kind given.
pub open spec fn single_at(input: Seq<char>, pos: nat, kind: TokenKindView) -> TokenView {
    TokenView { kind, raw: input.subrange(pos as int, pos as int + 1), pos }
}

/// The longest run of white space from `pos` on.
pub open spec fn whitespace_at(input: Seq<char>, pos: nat) -> TokenView {
    TokenView {
        kind: TokenKindView::Whitespace,
        raw: input.subrange(pos as int, run_end(input, pos as int, whitespace())),
        pos,
    }
}

/// The line comment whose two-character opener stands at `pos`: it runs up
/// to the next line feed, which it leaves, or to the end of the text.
pub open spec fn line_comment_at(input: Seq<char>, pos: nat) -> TokenView {
    let end = run_end(input, pos as int + 2, within_line());
    TokenView {
        kind: TokenKindView::Comment {
            kind: CommentKind::Line,
            text: input.subrange(pos as int + 2, end),
        },
        raw: input.subrange(pos as int, end),
        pos,
    }
}

/// The block comment whose two-character opener stands at `pos`: it runs
/// through the first closer, or to the end of the text if none follows.
pub open spec fn block_comment_at(input: Seq<char>, pos: nat) -> TokenView {
    let close = block_closer(input, pos as int + 2);
    let terminated = close < input.len();
    TokenView {
        kind: TokenKindView::Comment {
            kind: CommentKind::Block { terminated },
            text: input.subrange(pos as int + 2, close),
        },
        raw: input.subrange(
            pos as int,
            if terminated {
                close + 2
            } else {
                close
            },
        ),
        pos,
    }
}

/// The word at `pos`: one character, whatever it is, and the letters,
/// digits and underscores behind it.
pub open spec fn word_at(input: Seq<char>, pos: nat) -> TokenView {
    let raw = input.subrange(pos as int, run_end(input, pos as int + 1, ident_continue()));
    TokenView { kind: keyword_kind(raw), raw, pos }
}

/// The raw identifier whose two-character prefix stands at `pos`. Where no
/// letter or underscore follows the prefix, the token is the prefix alone
/// and is not terminated.
pub open spec fn raw_ident_at(input: Seq<char>, pos: nat) -> TokenView {
    if pos + 2 < input.len() && is_ident_start(input[pos as int + 2]) {
        TokenView {
            kind: TokenKindView::Ident(IdentKind::Raw { terminated: true }),
            raw: input.subrange(pos as int, run_end(input, pos as int + 3, ident_continue())),
            pos,
        }
    } else {
        TokenView {
            kind: TokenKindView::Ident(IdentKind::Raw { terminated: false }),
            raw: input.subrange(pos as int, pos as int + 2),
            pos,
        }
    }
}

/// The string literal that opens at `pos`.
pub open spec fn string_at(input: Seq<char>, pos: nat) -> TokenView {
    TokenView {
        kind: TokenKindView::Lit(
            LitKindView::Str {
                terminated: quoted_terminated(input, pos, '"'),
                raw_without_sign: quoted_text(input, pos, '"'),
            },
        ),
        raw: quoted_raw(input, pos, '"'),
        pos,
    }
}

/// The character literal that opens at `pos`.
pub open spec fn char_at(input: Seq<char>, pos: nat) -> TokenView {
    TokenView {
        kind: TokenKindView::Lit(
            LitKindView::Char {
                terminated: quoted_terminated(input, pos, '\''),
                raw_without_sign: quoted_text(input, pos, '\''),
            },
        ),
        raw: quoted_raw(input, pos, '\''),
        pos,
    }
}

/// Whether a token can begin with `c`.
pub open spec fn begins_token(c: char) -> bool {
    ||| operators(c).len() > 0
    ||| delimiter_kind(c) is Some
    ||| c == '\''
    ||| c == '"'
    ||| is_ident_start(c)
    ||| is_white_space(c)
}

/// The token that starts at `pos` in `input`, or the reason why none does.
///
/// At and after the end of the text this is the end-of-input token. Before
/// the end, the character at `pos` decides: a comment opener, an operator
/// by its longest spelling, a delimiter, a quoted literal, a raw identifier
/// or a word, a run of white space, each checked in this order; any other
/// character is not valid.
pub open spec fn token_at(input: Seq<char>, pos: nat) -> Result<TokenView, Error> {
    if pos >= input.len() {
        Ok(eof_at(pos))
    } else {
        let c = input[pos as int];
        if starts_with(input, pos as int, "//"@) {
            Ok(line_comment_at(input, pos))
        } else if starts_with(input, pos as int, "/*"@) {
            Ok(block_comment_at(input, pos))
        } else if operators(c).len() > 0 {
            candidate_at(operators(c), input, pos)
        } else if delimiter_kind(c) is Some {
            Ok(single_at(input, pos, delimiter_kind(c)->0))
        } else if c == '\'' {
            Ok(char_at(input, pos))
        } else if c == '"' {
            Ok(string_at(input, pos))
        } else if is_ident_start(c) {
            if starts_with(input, pos as int, "r#"@) {
                Ok(raw_ident_at(input, pos))
            } else {
                Ok(word_at(input, pos))
            }
        } else if is_white_space(c) {
            Ok(whitespace_at(input, pos))
        } else {
            Err(Error::InvalidCharacter { chr: c, pos: pos as usize })
        }
    }
}

/// A text of two characters stands at `pos` when its characters stand at
/// `pos` and behind it.
pub proof fn lemma_starts_with_pair(input: Seq<char>, pos: int, text: Seq<char>)
    requires
        text.len() == 2,
    ensures
        starts_with(input, pos, text) <==> 0 <= pos && pos + 2 <= input.len() && input[pos]
            == text[0] && input[pos + 1] == text[1],
{
    if 0 <= pos && pos + 2 <= input.len() {
        let found = input.subrange(pos, pos + 2);
        assert(found[0] == input[pos] && found[1] == input[pos + 1]);
        if input[pos] == text[0] && input[pos + 1] == text[1] {
            assert(found =~= text);
        }
    }
}

/// At most one entry of a table wins at a position.
pub proof fn lemma_best_match_unique(table: Table, input: Seq<char>, pos: int, i: int, j: int)
    requires
        is_best_match(table, input, pos, i),
        is_best_match(table, input, pos, j),
    ensures
        i == j,
{
    // Both stand at `pos` and neither is longer than the other: they are
    // the same spelling, and each is the first entry with it.
    assert(table[i].0 == table[j].0);
}

/// The entry that wins at a position is the one that [`best_match`] names.
pub proof fn lemma_best_match_is(table: Table, input: Seq<char>, pos: int, i: int)
    requires
        is_best_match(table, input, pos, i),
    ensures
        has_match(table, input, pos),
        best_match(table, input, pos) == i,
{
    lemma_best_match_unique(table, input, pos, i, best_match(table, input, pos));
}

/// A run ends within the text, holds only characters that satisfy `p`, and
/// stops at the first that does not.
pub proof fn lemma_run_end(input: Seq<char>, from: int, p: spec_fn(char) -> bool)
    requires
        0 <= from <= input.len(),
    ensures
        from <= run_end(input, from, p) <= input.len(),
        forall|k: int| from <= k < run_end(input, from, p) ==> p(#[trigger] input[k]),
        run_end(input, from, p) < input.len() ==> !p(input[run_end(input, from, p)]),
    decreases input.len() - from,
{
    if from < input.len() && p(input[from]) {
        lemma_run_end(input, from + 1, p);
    }
}

/// The closer that [`block_closer`] finds lies within the text, is a
/// closer, and is the first one.
pub proof fn lemma_block_closer(input: Seq<char>, from: int)
    requires
        0 <= from <= input.len(),
    ensures
        from <= block_closer(input, from) <= input.len(),
        block_closer(input, from) < input.len() ==> closes_block(
            input,
            block_closer(input, from),
        ),
        forall|k: int| from <= k < block_closer(input, from) ==> !closes_block(input, k),
    decreases input.len() - from,
{
    if from < input.len() && !closes_block(input, from) {
        lemma_block_closer(input, from + 1);
    }
}

/// The quote that [`quote_closer`] finds lies within the text and is the
/// sign.
pub proof fn lemma_quote_closer(input: Seq<char>, from: int, sign: char)
    requires
        0 <= from <= input.len(),
    ensures
        from <= quote_closer(input, from, sign) <= input.len(),
        quote_closer(input, from, sign) < input.len() ==> input[quote_closer(input, from, sign)]
            == sign,
    decreases input.len() - from,
{
    if from < input.len() && input[from] != sign {
        if input[from] == '\\' && from + 1 < input.len() {
            lemma_quote_closer(input, from + 2, sign);
        } else {
            lemma_quote_closer(input, from + 1, sign);
        }
    }
}

/// Every operator spelling that is listed under `c` begins with `c`, the
/// first of them is `c` alone, and none stands for the end of input.
pub proof fn lemma_operator_spellings(c: char)
    ensures
        forall|i: int|
            0 <= i < operators(c).len() ==> {
                let entry = #[trigger] operators(c)[i];
                entry.0.len() >= 1 && entry.0[0] == c && !(entry.1 is Eof)
            },
        operators(c).len() > 0 ==> operators(c)[0].0 == seq![c],
{
    reveal_strlit("+");
    reveal_strlit("+=");
    reveal_strlit("-");
    reveal_strlit("-=");
    reveal_strlit("*");
    reveal_strlit("*=");
    reveal_strlit("/");
    reveal_strlit("/=");
    reveal_strlit("%");
    reveal_strlit("%=");
    reveal_strlit("^");
    reveal_strlit("^=");
    reveal_strlit("&");
    reveal_strlit("&=");
    reveal_strlit("&&");
    reveal_strlit("&&=");
    reveal_strlit("|");
    reveal_strlit("|=");
    reveal_strlit("||");
    reveal_strlit("||=");
    reveal_strlit("<");
    reveal_strlit("<=");
    reveal_strlit("<<");
    reveal_strlit("<<=");
    reveal_strlit(">");
    reveal_strlit(">=");
    reveal_strlit(">>");
    reveal_strlit(">>=");
    reveal_strlit("!");
    reveal_strlit("!=");
    reveal_strlit("=");
    reveal_strlit("==");
    reveal_strlit(".");
    reveal_strlit("..");
    reveal_strlit("..=");
}

/// Among the first `n` entries of a table, where one of them stands at
/// `pos`, one wins: the first of the longest that stand there.
proof fn lemma_winner_among(table: Table, input: Seq<char>, pos: int, n: int) -> (i: int)
    requires
        0 <= n <= table.len(),
        exists|j: int| 0 <= j < n && starts_with(input, pos, #[trigger] table[j].0),
    ensures
        is_best_match(table.take(n), input, pos, i),
    decreases n,
{
    let last = n - 1;
    let head = table.take(last);
    let all = table.take(n);
    assert(forall|j: int| 0 <= j < last ==> #[trigger] all[j] == head[j]);
    if exists|j: int| 0 <= j < last && starts_with(input, pos, #[trigger] table[j].0) {
        let before = lemma_winner_among(table, input, pos, last);
        if starts_with(input, pos, all[last].0) && all[last].0.len() > head[before].0.len() {
            // An earlier entry with the spelling of the last one would stand
            // at `pos` too, and be longer than the longest before.
            last
        } else {
            before
        }
    } else {
        last
    }
}

/// Where a spelling of the table stands at `pos`, an entry wins there, and
/// it is the one that [`best_match`] names: the longest spelling that
/// stands at `pos`, under the first entry that lists it.
pub proof fn lemma_best_match_exists(table: Table, input: Seq<char>, pos: int)
    requires
        has_match(table, input, pos),
    ensures
        is_best_match(table, input, pos, best_match(table, input, pos)),
{
    let winner = lemma_winner_among(table, input, pos, table.len() as int);
    assert(table.take(table.len() as int) =~= table);
}

} // verus!
