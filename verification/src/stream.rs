//! The tokens of a whole text, and what holds of them.

use crate::error::Error;
use crate::grammar::{
    begins_token, candidate_at, delimiter_kind, eof_at, has_match, ident_continue,
    is_ident_start, keyword_kind, lemma_best_match_exists, lemma_block_closer,
    lemma_operator_spellings, lemma_quote_closer, lemma_run_end, lemma_starts_with_pair,
    operators, run_end, starts_with, token_at, whitespace, within_line, Table,
};
use crate::token::{Token, TokenView};
use crate::trusted::is_white_space;
use vstd::prelude::*;

verus! {

/// The texts of `tokens`, put end to end.
pub open spec fn concat_raw(tokens: Seq<TokenView>) -> Seq<char>
    decreases tokens.len(),
{
    if tokens.len() == 0 {
        Seq::empty()
    } else {
        tokens[0].raw + concat_raw(tokens.drop_first())
    }
}

/// The views of `tokens`, one by one.
pub open spec fn token_views(tokens: Seq<Token>) -> Seq<TokenView> {
    tokens.map_values(|token: Token| token@)
}

/// `tokens` in front of what `rest` holds, or the failure of `rest`.
pub open spec fn followed_by(tokens: Seq<TokenView>, rest: Result<Seq<TokenView>, Error>) -> Result<
    Seq<TokenView>,
    Error,
> {
    match rest {
        Ok(more) => Ok(tokens + more),
        Err(e) => Err(e),
    }
}

/// The tokens that successive reads give from `pos` on, up to and with the
/// end-of-input token; or the failure of the first read that fails.
pub open spec fn tokens_from(input: Seq<char>, pos: nat) -> Result<Seq<TokenView>, Error>
    decreases input.len() - pos,
    via tokens_from_decreases
{
    match token_at(input, pos) {
        Err(e) => Err(e),
        Ok(token) => if token.kind is Eof {
            Ok(seq![token])
        } else {
            followed_by(seq![token], tokens_from(input, pos + token.raw.len()))
        },
    }
}

#[via_fn]
proof fn tokens_from_decreases(input: Seq<char>, pos: nat) {
    lemma_token_extent(input, pos);
}

/// A token covers the text where it stands: it starts at `pos`, its text
/// is what the input holds from `pos` on, and it ends within the input.
/// Only the end-of-input token is empty, and it stands only at the end.
pub proof fn lemma_token_extent(input: Seq<char>, pos: nat)
    ensures
        match token_at(input, pos) {
            Ok(token) => {
                &&& token.pos == pos
                &&& (token.kind is Eof <==> pos >= input.len())
                &&& (token.kind is Eof <==> token.raw.len() == 0)
                &&& pos < input.len() ==> pos + token.raw.len() <= input.len() && token.raw
                    == input.subrange(pos as int, pos as int + token.raw.len())
            },
            Err(e) => pos < input.len(),
        },
{
    if pos < input.len() {
        let p = pos as int;
        let c = input[p];
        reveal_strlit("//");
        reveal_strlit("/*");
        reveal_strlit("r#");
        lemma_starts_with_pair(input, p, "//"@);
        lemma_starts_with_pair(input, p, "/*"@);
        lemma_starts_with_pair(input, p, "r#"@);
        if starts_with(input, p, "//"@) {
            lemma_run_end(input, p + 2, within_line());
        } else if starts_with(input, p, "/*"@) {
            lemma_block_closer(input, p + 2);
        } else if operators(c).len() > 0 {
            lemma_operator_spellings(c);
            let table = operators(c);
            if has_match(table, input, p) {
                lemma_best_match_exists(table, input, p);
            }
        } else if delimiter_kind(c) is Some {
            // one character, whatever follows
        } else if c == '\'' {
            lemma_quote_closer(input, p + 1, '\'');
        } else if c == '"' {
            lemma_quote_closer(input, p + 1, '"');
        } else if is_ident_start(c) {
            if starts_with(input, p, "r#"@) {
                if p + 2 < input.len() {
                    lemma_run_end(input, p + 3, ident_continue());
                }
            } else {
                lemma_run_end(input, p + 1, ident_continue());
                lemma_keyword_kind_not_eof(
                    input.subrange(p, run_end(input, p + 1, ident_continue())),
                );
            }
        } else if is_white_space(c) {
            lemma_run_end(input, p, whitespace());
        }
    }
}

proof fn lemma_keyword_kind_not_eof(word: Seq<char>)
    ensures
        !(keyword_kind(word) is Eof),
{
}

/// Maximal munch: where a spelling of the table stands at `pos`, the token
/// is the longest spelling that stands there.
pub proof fn lemma_longest_spelling_wins(table: Table, input: Seq<char>, pos: nat)
    requires
        has_match(table, input, pos as int),
    ensures
        candidate_at(table, input, pos) is Ok,
        starts_with(input, pos as int, candidate_at(table, input, pos)->Ok_0.raw),
        forall|j: int|
            0 <= j < table.len() && starts_with(input, pos as int, #[trigger] table[j].0)
                ==> table[j].0.len() <= candidate_at(table, input, pos)->Ok_0.raw.len(),
{
    lemma_best_match_exists(table, input, pos as int);
}

/// At the end of the text every read gives the end-of-input token, which
/// covers nothing, so that the next read finds the same position again.
pub proof fn lemma_end_of_input_repeats(input: Seq<char>, pos: nat)
    requires
        pos >= input.len(),
    ensures
        token_at(input, pos) == Ok::<TokenView, Error>(eof_at(pos)),
        pos + eof_at(pos).raw.len() == pos,
{
}

/// A read fails only before the end of the text, on a character that
/// begins no token, and it reports that character and its offset. Quoted
/// texts and comments that nothing closes do not fail.
pub proof fn lemma_fails_on_invalid_character_only(input: Seq<char>, pos: nat)
    ensures
        token_at(input, pos) is Err <==> pos < input.len() && !begins_token(input[pos as int]),
        token_at(input, pos) is Err ==> token_at(input, pos) == Err::<TokenView, Error>(
            Error::InvalidCharacter { chr: input[pos as int], pos: pos as usize },
        ),
{
    if pos < input.len() {
        let p = pos as int;
        let c = input[p];
        reveal_strlit("//");
        reveal_strlit("/*");
        lemma_starts_with_pair(input, p, "//"@);
        lemma_starts_with_pair(input, p, "/*"@);
        lemma_operator_spellings(c);
        if operators(c).len() > 0 {
            assert(input.subrange(p, p + 1) =~= seq![c]);
        }
    }
}

/// The tokens of a text are what successive reads give: the first stands
/// at `pos`, each next one where the one before it ended, each is the
/// token of its position, and the last, and only the last, is the
/// end-of-input token.
pub proof fn lemma_stream_shape(input: Seq<char>, pos: nat)
    ensures
        tokens_from(input, pos) matches Ok(tokens) ==> {
            &&& tokens.len() >= 1
            &&& tokens[0].pos == pos
            &&& tokens.last().kind is Eof
            &&& forall|i: int|
                0 <= i < tokens.len() ==> token_at(input, #[trigger] tokens[i].pos) == Ok::<
                    TokenView,
                    Error,
                >(tokens[i])
            &&& forall|i: int|
                0 <= i < tokens.len() - 1 ==> !(#[trigger] tokens[i].kind is Eof) && tokens[i
                    + 1].pos == tokens[i].pos + tokens[i].raw.len()
        },
    decreases input.len() - pos,
{
    lemma_token_extent(input, pos);
    if let Ok(token) = token_at(input, pos) {
        if !(token.kind is Eof) {
            let next = pos + token.raw.len();
            lemma_stream_shape(input, next);
            if let Ok(rest) = tokens_from(input, next) {
                let tokens = seq![token] + rest;
                assert forall|i: int| 0 <= i < tokens.len() - 1 implies !(
                #[trigger] tokens[i].kind is Eof) && tokens[i + 1].pos == tokens[i].pos
                    + tokens[i].raw.len() by {
                    assert(tokens[i + 1] == rest[i]);
                    if i >= 1 {
                        assert(tokens[i] == rest[i - 1]);
                    }
                }
            }
        }
    }
}

/// Losslessness, from any position: the texts of the tokens from `pos` on,
/// put end to end, are the text from `pos` on.
pub proof fn lemma_lossless_from(input: Seq<char>, pos: nat)
    requires
        pos <= input.len(),
    ensures
        tokens_from(input, pos) matches Ok(tokens) ==> concat_raw(tokens) == input.skip(
            pos as int,
        ),
    decreases input.len() - pos,
{
    lemma_token_extent(input, pos);
    if let Ok(token) = token_at(input, pos) {
        if token.kind is Eof {
            let tokens = seq![token];
            assert(concat_raw(tokens.drop_first()) =~= Seq::<char>::empty());
        } else {
            let next = pos + token.raw.len();
            lemma_lossless_from(input, next);
            if let Ok(rest) = tokens_from(input, next) {
                let tokens = seq![token] + rest;
                assert(tokens.drop_first() =~= rest);
            }
        }
    }
}

/// Losslessness: the texts of the tokens of a text, end-of-input token
/// included, put end to end, are the text.
pub proof fn lemma_lossless(input: Seq<char>)
    ensures
        tokens_from(input, 0) matches Ok(tokens) ==> concat_raw(tokens) == input,
{
    lemma_lossless_from(input, 0);
}

} // verus!
