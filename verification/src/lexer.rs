//! The lexer: one token per read, proved against the grammar.

use crate::error::Error;
use crate::grammar::{
    begins_token, block_closer, block_comment_at, candidate_at, char_at, closes_block, eof_at, has_match,
    ident_continue, is_best_match, is_ident_continue, is_ident_start, keyword_kind,
    lemma_best_match_is, lemma_starts_with_pair, line_comment_at, operators, quote_closer,
    quoted_raw, quoted_terminated, quoted_text, raw_ident_at, run_end, single_at, starts_with,
    string_at, Table, token_at, whitespace, whitespace_at, within_line, word_at,
};
use crate::lengths::{dedup_adjacent, is_descending, lemma_dedup_adjacent_same_values};
use crate::scanner::{Scanner, ScannerView};
use crate::stream::{
    concat_raw, followed_by, lemma_fails_on_invalid_character_only, lemma_lossless_from,
    lemma_token_extent, token_views, tokens_from,
};
use crate::text::same_text;
use crate::token::{
    BinOpKind, CommentKind, IdentKind, LitKind, Token, TokenKind, TokenKindView, TokenView,
};
use crate::trusted::{dedup, sorted_descending};
use vstd::prelude::*;
use vstd::string::{StrSliceExecFns, StringExecFns};

verus! {

/// Cuts the text of a [`Scanner`] into tokens, one per call of
/// [`Lexer::read`].
pub struct Lexer {
    scanner: Scanner,
}

impl View for Lexer {
    type V = ScannerView;

    closed spec fn view(&self) -> ScannerView {
        self.scanner@
    }
}

/// A table of spellings as the grammar sees it.
pub open spec fn table_view<'a>(keywords: Seq<(&'a str, TokenKind)>) -> Table {
    keywords.map_values(|entry: (&'a str, TokenKind)| (entry.0@, entry.1@))
}

/// The lengths of the spellings of `table`, entry by entry.
pub open spec fn spelling_lengths(table: Table) -> Seq<usize> {
    table.map_values(|entry: (Seq<char>, TokenKindView)| entry.0.len() as usize)
}

impl Lexer {
    /// A lexer over the text of `scanner`, which starts where the cursor of
    /// `scanner` stands.
    pub fn new(scanner: Scanner) -> (lexer: Self)
        ensures
            lexer@ == scanner@,
    {
        Self { scanner }
    }

    /// The lengths at which [`Lexer::read_by`] probes the text for a
    /// spelling of `keywords`, in the order in which it tries them: the
    /// lengths of the spellings, runs of equal neighbours shortened to one,
    /// greatest first.
    pub fn probe_lengths(keywords: &Vec<(&str, TokenKind)>) -> (lens: Vec<usize>)
        ensures
            lens@.to_multiset() == dedup_adjacent(
                spelling_lengths(table_view(keywords@)),
            ).to_multiset(),
            is_descending(lens@),
    {
        let mut lens: Vec<usize> = Vec::new();
        let mut i: usize = 0;
        while i < keywords.len()
            invariant
                i <= keywords.len(),
                lens@ == spelling_lengths(table_view(keywords@)).take(i as int),
            decreases keywords.len() - i,
        {
            let len = keywords[i].0.unicode_len();
            lens.push(len);
            i = i + 1;
        }
        assert(lens@ =~= spelling_lengths(table_view(keywords@)));
        sorted_descending(dedup(lens))
    }

    /// Reads the longest spelling of `keywords` that stands at the cursor,
    /// as a token of the kind listed with it; of two entries with that
    /// spelling the first counts. Where no spelling stands there, nothing
    /// is read and the error names the character at the cursor, or says
    /// that the text has ended.
    #[verifier::loop_isolation(false)]
    pub fn read_by(&mut self, keywords: Vec<(&str, TokenKind)>) -> (r: Result<Token, Error>)
        ensures
            match r {
                Ok(token) => candidate_at(
                    table_view(keywords@),
                    old(self)@.input,
                    old(self)@.pos,
                ) == Ok::<TokenView, Error>(token@) && final(self)@ == old(self)@.advanced(
                    token@.raw.len(),
                ),
                Err(e) => candidate_at(table_view(keywords@), old(self)@.input, old(self)@.pos)
                    == Err::<TokenView, Error>(e) && final(self)@ == old(self)@,
            },
    {
        let pos = self.scanner.get_pos();
        let lens = Self::probe_lengths(&keywords);
        let mut keywords = keywords;
        let ghost table = table_view(keywords@);
        let ghost lengths = spelling_lengths(table);
        let ghost input = self.scanner@.input;
        proof {
            assert forall|j: int| 0 <= j < table.len() implies lens@.contains(
                #[trigger] lengths[j],
            ) by {
                let len = lengths[j];
                lemma_dedup_adjacent_same_values(lengths, len);
                dedup_adjacent(lengths).to_multiset_ensures();
                lens@.to_multiset_ensures();
                assert(lens@.to_multiset().count(len) > 0);
            }
        }
        let mut i: usize = 0;
        while i < lens.len()
            invariant
                i <= lens.len(),
                self.scanner@ == old(self)@,
                table == table_view(keywords@),
                forall|j: int, m: int|
                    #![trigger lens@[m], lengths[j]]
                    0 <= j < table.len() && 0 <= m < i && lens@[m] == lengths[j] ==> !starts_with(
                        input,
                        pos as int,
                        table[j].0,
                    ),
            decreases lens.len() - i,
        {
            let len = lens[i];
            match self.scanner.peek_len(len) {
                Ok(raw) => {
                    let mut k: usize = 0;
                    while k < keywords.len()
                        invariant
                            k <= keywords.len(),
                            self.scanner@ == old(self)@,
                            table == table_view(keywords@),
                            forall|j: int| 0 <= j < k ==> #[trigger] table[j].0 != raw@,
                        decreases keywords.len() - k,
                    {
                        if same_text(keywords[k].0, raw.as_str()) {
                            proof {
                                assert forall|j: int|
                                    0 <= j < table.len() && starts_with(
                                        input,
                                        pos as int,
                                        #[trigger] table[j].0,
                                    ) implies table[j].0.len() <= len by {
                                    let m = choose|m: int|
                                        0 <= m < lens@.len() && lens@[m] == lengths[j];
                                }
                                lemma_best_match_is(table, input, pos as int, k as int);
                            }
                            self.scanner.skip_len(len)?;
                            let entry = keywords.remove(k);
                            return Ok(Token::new(entry.1, raw, pos));
                        }
                        k = k + 1;
                    }
                    proof {
                        assert forall|j: int|
                            0 <= j < table.len() && lengths[j] == len implies !starts_with(
                            input,
                            pos as int,
                            #[trigger] table[j].0,
                        ) by {
                            if starts_with(input, pos as int, table[j].0) {
                            }
                        }
                    }
                },
                Err(_) => {
                    proof {
                        assert forall|j: int|
                            0 <= j < table.len() && lengths[j] == len implies !starts_with(
                            input,
                            pos as int,
                            #[trigger] table[j].0,
                        ) by {
                            if starts_with(input, pos as int, table[j].0) {
                            }
                        }
                    }
                },
            }
            i = i + 1;
        }
        proof {
            assert forall|j: int| 0 <= j < table.len() implies !starts_with(
                input,
                pos as int,
                #[trigger] table[j].0,
            ) by {
                let m = choose|m: int| 0 <= m < lens@.len() && lens@[m] == lengths[j];
            }
        }
        Err(Error::InvalidCharacter { chr: self.scanner.peek()?, pos })
    }

    /// Reads the white space at the cursor, as far as it goes. The token is
    /// empty where the character at the cursor is not white space.
    pub fn read_whitespace(&mut self) -> (r: Result<Token, Error>)
        ensures
            r is Ok,
            r->Ok_0@ == whitespace_at(old(self)@.input, old(self)@.pos),
            final(self)@ == old(self)@.advanced(r->Ok_0@.raw.len()),
    {
        let mut raw = String::new();
        let pos = self.scanner.get_pos();
        let ghost input = self.scanner@.input;
        loop
            invariant
                self.scanner@.input == input,
                input == old(self)@.input,
                pos == old(self)@.pos,
                pos <= self.scanner@.pos <= input.len(),
                raw@ == input.subrange(pos as int, self.scanner@.pos as int),
                run_end(input, pos as int, whitespace()) == run_end(
                    input,
                    self.scanner@.pos as int,
                    whitespace(),
                ),
            ensures
                run_end(input, pos as int, whitespace()) == self.scanner@.pos,
            decreases input.len() - self.scanner@.pos,
        {
            if self.scanner.is_eof() {
                break ;
            }
            let ch = self.scanner.peek()?;
            if !ch.is_whitespace() {
                break ;
            }
            self.scanner.skip()?;
            raw.push(ch);
        }
        Ok(Token::new(TokenKind::Whitespace, raw, pos))
    }

    /// Reads a line comment: the two characters at the cursor, taken for
    /// its opener, and what follows them up to the next line feed or the
    /// end of the text. Fails, reading nothing, where fewer than two
    /// characters are left.
    pub fn read_line_comment(&mut self) -> (r: Result<Token, Error>)
        ensures
            match r {
                Ok(token) => old(self)@.remaining() >= 2 && token@ == line_comment_at(
                    old(self)@.input,
                    old(self)@.pos,
                ) && final(self)@ == old(self)@.advanced(token@.raw.len()),
                Err(e) => old(self)@.remaining() < 2 && e == Error::OutOfRange && final(self)@
                    == old(self)@,
            },
    {
        let pos = self.scanner.get_pos();
        let mut raw = self.scanner.read_len(2)?;
        let mut text = String::new();
        let ghost input = self.scanner@.input;
        loop
            invariant
                self.scanner@.input == input,
                input == old(self)@.input,
                pos == old(self)@.pos,
                pos + 2 <= self.scanner@.pos <= input.len(),
                raw@ == input.subrange(pos as int, self.scanner@.pos as int),
                text@ == input.subrange(pos + 2, self.scanner@.pos as int),
                run_end(input, pos + 2, within_line()) == run_end(
                    input,
                    self.scanner@.pos as int,
                    within_line(),
                ),
            ensures
                run_end(input, pos + 2, within_line()) == self.scanner@.pos,
            decreases input.len() - self.scanner@.pos,
        {
            if self.scanner.is_eof() {
                break ;
            }
            let ch = self.scanner.peek()?;
            if ch == '\n' {
                break ;
            }
            self.scanner.skip()?;
            raw.push(ch);
            text.push(ch);
        }
        Ok(Token::new(TokenKind::Comment { kind: CommentKind::Line, text }, raw, pos))
    }

    /// Reads a block comment: the two characters at the cursor, taken for
    /// its opener, and what follows them through the first closer. Where
    /// the text ends before a closer, the comment ends with it and is not
    /// terminated. Fails, reading nothing, where fewer than two characters
    /// are left.
    pub fn read_block_comment(&mut self) -> (r: Result<Token, Error>)
        ensures
            match r {
                Ok(token) => old(self)@.remaining() >= 2 && token@ == block_comment_at(
                    old(self)@.input,
                    old(self)@.pos,
                ) && final(self)@ == old(self)@.advanced(token@.raw.len()),
                Err(e) => old(self)@.remaining() < 2 && e == Error::OutOfRange && final(self)@
                    == old(self)@,
            },
    {
        let pos = self.scanner.get_pos();
        let mut raw = self.scanner.read_len(2)?;
        let mut text = String::new();
        let mut terminated = false;
        let ghost input = self.scanner@.input;
        proof {
            reveal_strlit("*/");
        }
        loop
            invariant_except_break
                !terminated,
                raw@ == input.subrange(pos as int, self.scanner@.pos as int),
                text@ == input.subrange(pos + 2, self.scanner@.pos as int),
                block_closer(input, pos + 2) == block_closer(input, self.scanner@.pos as int),
            invariant
                self.scanner@.input == input,
                input == old(self)@.input,
                pos == old(self)@.pos,
                pos + 2 <= self.scanner@.pos <= input.len(),
                "*/"@ == seq!['*', '/'],
            ensures
                terminated == (block_closer(input, pos + 2) < input.len()),
                text@ == input.subrange(pos + 2, block_closer(input, pos + 2)),
                raw@ == input.subrange(pos as int, self.scanner@.pos as int),
                self.scanner@.pos == if terminated {
                    block_closer(input, pos + 2) + 2
                } else {
                    block_closer(input, pos + 2)
                },
            decreases input.len() - self.scanner@.pos,
        {
            if self.scanner.is_eof() {
                break ;
            }
            let ghost at = self.scanner@.pos as int;
            if self.scanner.check_len(2).is_ok() {
                let sign = self.scanner.peek_len(2)?;
                if same_text(sign.as_str(), "*/") {
                    let closer = self.scanner.read_len(2)?;
                    raw.append(closer.as_str());
                    terminated = true;
                    break ;
                }
                assert(!closes_block(input, at)) by {
                    if closes_block(input, at) {
                        assert(sign@ =~= seq!['*', '/']);
                    }
                }
            }
            let ch = self.scanner.read()?;
            raw.push(ch);
            text.push(ch);
        }
        Ok(Token::new(TokenKind::Comment { kind: CommentKind::Block { terminated }, text }, raw, pos))
    }

    /// Reads the one character at the cursor as a token of the kind given.
    /// Fails at the end of the text.
    pub fn read_kind(&mut self, kind: TokenKind) -> (r: Result<Token, Error>)
        ensures
            match r {
                Ok(token) => old(self)@.remaining() >= 1 && token@ == single_at(
                    old(self)@.input,
                    old(self)@.pos,
                    kind@,
                ) && final(self)@ == old(self)@.advanced(1),
                Err(e) => old(self)@.remaining() == 0 && e == Error::OutOfRange && final(self)@
                    == old(self)@,
            },
    {
        let pos = self.scanner.get_pos();
        let ch = self.scanner.read()?;
        let mut raw = String::new();
        raw.push(ch);
        assert(raw@ =~= old(self)@.input.subrange(pos as int, pos + 1));
        Ok(Token::new(kind, raw, pos))
    }

    /// Reads a word: the character at the cursor, whatever it is, and the
    /// letters, digits and underscores behind it. A word that spells a
    /// keyword has that keyword's kind; any other is an identifier. Fails
    /// at the end of the text.
    pub fn read_keyword(&mut self) -> (r: Result<Token, Error>)
        ensures
            match r {
                Ok(token) => old(self)@.remaining() >= 1 && token@ == word_at(
                    old(self)@.input,
                    old(self)@.pos,
                ) && final(self)@ == old(self)@.advanced(token@.raw.len()),
                Err(e) => old(self)@.remaining() == 0 && e == Error::OutOfRange && final(self)@
                    == old(self)@,
            },
    {
        let pos = self.scanner.get_pos();
        let first = self.scanner.read()?;
        let mut raw = String::new();
        raw.push(first);
        let ghost input = self.scanner@.input;
        loop
            invariant
                self.scanner@.input == input,
                input == old(self)@.input,
                pos == old(self)@.pos,
                pos + 1 <= self.scanner@.pos <= input.len(),
                raw@ == input.subrange(pos as int, self.scanner@.pos as int),
                run_end(input, pos + 1, ident_continue()) == run_end(
                    input,
                    self.scanner@.pos as int,
                    ident_continue(),
                ),
            ensures
                run_end(input, pos + 1, ident_continue()) == self.scanner@.pos,
            decreases input.len() - self.scanner@.pos,
        {
            if self.scanner.is_eof() {
                break ;
            }
            let ch = self.scanner.peek()?;
            match ch {
                'a'..='z' | 'A'..='Z' | '0'..='9' | '_' => {
                    raw.push(ch);
                    self.scanner.skip()?;
                },
                _ => {
                    break ;
                },
            }
        }
        let word = raw.as_str();
        let kind = if same_text(word, "null") {
            TokenKind::Lit(LitKind::Null)
        } else if same_text(word, "true") || same_text(word, "false") {
            TokenKind::Lit(LitKind::Bool)
        } else if same_text(word, "let") {
            TokenKind::Let
        } else if same_text(word, "mut") {
            TokenKind::Mut
        } else if same_text(word, "if") {
            TokenKind::If
        } else if same_text(word, "else") {
            TokenKind::Else
        } else if same_text(word, "fn") {
            TokenKind::Fn
        } else if same_text(word, "use") {
            TokenKind::Use
        } else if same_text(word, "from") {
            TokenKind::From
        } else if same_text(word, "enum") {
            TokenKind::Enum
        } else if same_text(word, "in") {
            TokenKind::In
        } else if same_text(word, "as") {
            TokenKind::As
        } else if same_text(word, "mod") {
            TokenKind::Mod
        } else if same_text(word, "class") {
            TokenKind::Class
        } else if same_text(word, "extends") {
            TokenKind::Extends
        } else if same_text(word, "nan") || same_text(word, "infinity") {
            TokenKind::Lit(LitKind::Num)
        } else if same_text(word, "while") {
            TokenKind::While
        } else if same_text(word, "pub") {
            TokenKind::Pub
        } else if same_text(word, "async") {
            TokenKind::Async
        } else if same_text(word, "loop") {
            TokenKind::Loop
        } else if same_text(word, "for") {
            TokenKind::For
        } else if same_text(word, "yield") {
            TokenKind::Yield
        } else if same_text(word, "return") {
            TokenKind::Return
        } else if same_text(word, "continue") {
            TokenKind::Continue
        } else if same_text(word, "break") {
            TokenKind::Break
        } else {
            TokenKind::Ident(IdentKind::Ident)
        };
        Ok(Token::new(kind, raw, pos))
    }

    /// Reads a raw identifier: the two characters at the cursor, taken for
    /// its prefix, and the identifier behind them. Where no letter or
    /// underscore follows the prefix, the token is the prefix alone and is
    /// not terminated. Fails, reading nothing, where fewer than two
    /// characters are left.
    pub fn read_raw_ident(&mut self) -> (r: Result<Token, Error>)
        ensures
            match r {
                Ok(token) => old(self)@.remaining() >= 2 && token@ == raw_ident_at(
                    old(self)@.input,
                    old(self)@.pos,
                ) && final(self)@ == old(self)@.advanced(token@.raw.len()),
                Err(e) => old(self)@.remaining() < 2 && e == Error::OutOfRange && final(self)@
                    == old(self)@,
            },
    {
        let pos = self.scanner.get_pos();
        let mut raw = self.scanner.read_len(2)?;
        let ghost input = self.scanner@.input;
        let next = match self.scanner.peek() {
            Ok(ch) => ch,
            Err(_) => '0',
        };
        match next {
            'a'..='z' | 'A'..='Z' | '_' => {
                let ch = self.scanner.read()?;
                raw.push(ch);
            },
            _ => {
                return Ok(
                    Token::new(TokenKind::Ident(IdentKind::Raw { terminated: false }), raw, pos),
                );
            },
        }
        loop
            invariant
                self.scanner@.input == input,
                input == old(self)@.input,
                pos == old(self)@.pos,
                pos + 3 <= self.scanner@.pos <= input.len(),
                is_ident_start(input[pos + 2]),
                raw@ == input.subrange(pos as int, self.scanner@.pos as int),
                run_end(input, pos + 3, ident_continue()) == run_end(
                    input,
                    self.scanner@.pos as int,
                    ident_continue(),
                ),
            ensures
                run_end(input, pos + 3, ident_continue()) == self.scanner@.pos,
            decreases input.len() - self.scanner@.pos,
        {
            if self.scanner.is_eof() {
                break ;
            }
            let ch = self.scanner.peek()?;
            match ch {
                'a'..='z' | 'A'..='Z' | '0'..='9' | '_' => {
                    raw.push(ch);
                    self.scanner.skip()?;
                },
                _ => {
                    break ;
                },
            }
        }
        Ok(Token::new(TokenKind::Ident(IdentKind::Raw { terminated: true }), raw, pos))
    }

    /// Reads a quoted text: the character at the cursor, taken for the
    /// opening `sign`, and what follows through the next `sign` that no
    /// backslash stands before. Where the text ends first, the quoted text
    /// ends with it and is not terminated. The kind of the token is what
    /// `create_kind` makes of the text between the signs and of whether it
    /// is terminated. Fails at the end of the text.
    pub fn read_text<F: FnOnce(String, bool) -> TokenKind>(
        &mut self,
        create_kind: F,
        sign: char,
    ) -> (r: Result<Token, Error>)
        requires
            forall|text: String, terminated: bool| call_requires(create_kind, (text, terminated)),
        ensures
            match r {
                Ok(token) => {
                    &&& old(self)@.remaining() >= 1
                    &&& token@.raw == quoted_raw(old(self)@.input, old(self)@.pos, sign)
                    &&& token@.pos == old(self)@.pos
                    &&& exists|text: String|
                        text@ == quoted_text(old(self)@.input, old(self)@.pos, sign)
                            && #[trigger] call_ensures(
                            create_kind,
                            (text, quoted_terminated(old(self)@.input, old(self)@.pos, sign)),
                            token.kind,
                        )
                    &&& final(self)@ == old(self)@.advanced(token@.raw.len())
                },
                Err(e) => old(self)@.remaining() == 0 && e == Error::OutOfRange && final(self)@
                    == old(self)@,
            },
    {
        let pos = self.scanner.get_pos();
        let opener = self.scanner.read()?;
        let mut raw = String::new();
        raw.push(opener);
        let mut raw_without_sign = String::new();
        let mut terminated = false;
        let ghost input = self.scanner@.input;
        loop
            invariant_except_break
                !terminated,
                raw_without_sign@ == input.subrange(pos + 1, self.scanner@.pos as int),
                quote_closer(input, pos + 1, sign) == quote_closer(
                    input,
                    self.scanner@.pos as int,
                    sign,
                ),
            invariant
                self.scanner@.input == input,
                input == old(self)@.input,
                pos == old(self)@.pos,
                pos + 1 <= self.scanner@.pos <= input.len(),
                raw@ == input.subrange(pos as int, self.scanner@.pos as int),
            ensures
                terminated == quoted_terminated(input, pos as nat, sign),
                raw_without_sign@ == quoted_text(input, pos as nat, sign),
                raw@ == quoted_raw(input, pos as nat, sign),
            decreases input.len() - self.scanner@.pos,
        {
            if self.scanner.is_eof() {
                break ;
            }
            let ch = self.scanner.read()?;
            raw.push(ch);
            if ch == sign {
                terminated = true;
                break ;
            }
            raw_without_sign.push(ch);
            if !self.scanner.is_eof() && ch == '\\' {
                let escaped = self.scanner.read()?;
                raw.push(escaped);
                raw_without_sign.push(escaped);
            }
        }
        Ok(Token::new(create_kind(raw_without_sign, terminated), raw, pos))
    }

    /// Reads the string literal that opens at the cursor. Fails at the end
    /// of the text.
    pub fn read_string(&mut self) -> (r: Result<Token, Error>)
        ensures
            match r {
                Ok(token) => old(self)@.remaining() >= 1 && token@ == string_at(
                    old(self)@.input,
                    old(self)@.pos,
                ) && final(self)@ == old(self)@.advanced(token@.raw.len()),
                Err(e) => old(self)@.remaining() == 0 && e == Error::OutOfRange && final(self)@
                    == old(self)@,
            },
    {
        let create_kind = |raw_without_sign: String, terminated: bool| -> (kind: TokenKind)
            ensures
                kind == TokenKind::Lit(LitKind::Str { terminated, raw_without_sign }),
            {
                TokenKind::Lit(LitKind::Str { terminated, raw_without_sign })
            };
        self.read_text(create_kind, '"')
    }

    /// Reads the character literal that opens at the cursor. Fails at the
    /// end of the text.
    pub fn read_char(&mut self) -> (r: Result<Token, Error>)
        ensures
            match r {
                Ok(token) => old(self)@.remaining() >= 1 && token@ == char_at(
                    old(self)@.input,
                    old(self)@.pos,
                ) && final(self)@ == old(self)@.advanced(token@.raw.len()),
                Err(e) => old(self)@.remaining() == 0 && e == Error::OutOfRange && final(self)@
                    == old(self)@,
            },
    {
        let create_kind = |raw_without_sign: String, terminated: bool| -> (kind: TokenKind)
            ensures
                kind == TokenKind::Lit(LitKind::Char { terminated, raw_without_sign }),
            {
                TokenKind::Lit(LitKind::Char { terminated, raw_without_sign })
            };
        self.read_text(create_kind, '\'')
    }

    /// Reads the token at the cursor and moves the cursor past it.
    ///
    /// The token is the one that [`token_at`] defines for the text and the
    /// cursor. At the end of the text it is the end-of-input token, again
    /// and again. The call fails only where the character at the cursor
    /// begins no token: it then reports that character and its offset, and
    /// the cursor stays.
    pub fn read(&mut self) -> (r: Result<Token, Error>)
        ensures
            match r {
                Ok(token) => token_at(old(self)@.input, old(self)@.pos) == Ok::<TokenView, Error>(
                    token@,
                ) && final(self)@ == old(self)@.advanced(token@.raw.len()),
                Err(e) => token_at(old(self)@.input, old(self)@.pos) == Err::<TokenView, Error>(e)
                    && final(self)@ == old(self)@,
            },
            old(self)@.pos >= old(self)@.input.len() ==> r is Ok && r->Ok_0@ == eof_at(
                old(self)@.pos,
            ) && final(self)@ == old(self)@,
            r is Err <==> old(self)@.pos < old(self)@.input.len() && !begins_token(
                old(self)@.input[old(self)@.pos as int],
            ),
            r is Err ==> r->Err_0 == (Error::InvalidCharacter {
                chr: old(self)@.input[old(self)@.pos as int],
                pos: old(self)@.pos as usize,
            }),
    {
        proof {
            lemma_fails_on_invalid_character_only(self.scanner@.input, self.scanner@.pos);
        }
        if self.scanner.is_eof() {
            return Ok(Token::new(TokenKind::Eof, String::new(), self.scanner.get_pos()));
        }
        let ghost input = self.scanner@.input;
        let ghost pos = self.scanner@.pos as int;
        proof {
            reveal_strlit("//");
            reveal_strlit("/*");
            reveal_strlit("r#");
            lemma_starts_with_pair(input, pos, "//"@);
            lemma_starts_with_pair(input, pos, "/*"@);
            lemma_starts_with_pair(input, pos, "r#"@);
        }
        let ch = self.scanner.peek()?;
        let token = match ch {
            '+' => {
                let keywords = vec![
                    ("+", TokenKind::BinOp(BinOpKind::Plus)),
                    ("+=", TokenKind::BinOpEq(BinOpKind::Plus)),
                ];
                assert(table_view(keywords@) =~= operators(ch));
                self.read_by(keywords)
            },
            '-' => {
                let keywords = vec![
                    ("-", TokenKind::BinOp(BinOpKind::Minus)),
                    ("-=", TokenKind::BinOpEq(BinOpKind::Minus)),
                ];
                assert(table_view(keywords@) =~= operators(ch));
                self.read_by(keywords)
            },
            '*' => {
                let keywords = vec![
                    ("*", TokenKind::BinOp(BinOpKind::Star)),
                    ("*=", TokenKind::BinOpEq(BinOpKind::Star)),
                ];
                assert(table_view(keywords@) =~= operators(ch));
                self.read_by(keywords)
            },
            '/' => {
                if self.scanner.check_len(2).is_ok() {
                    let sign = self.scanner.peek_len(2)?;
                    if same_text(sign.as_str(), "//") {
                        return self.read_line_comment();
                    }
                    if same_text(sign.as_str(), "/*") {
                        return self.read_block_comment();
                    }
                }
                let keywords = vec![
                    ("/", TokenKind::BinOp(BinOpKind::Slash)),
                    ("/=", TokenKind::BinOpEq(BinOpKind::Slash)),
                ];
                assert(table_view(keywords@) =~= operators(ch));
                self.read_by(keywords)
            },
            '%' => {
                let keywords = vec![
                    ("%", TokenKind::BinOp(BinOpKind::Percent)),
                    ("%=", TokenKind::BinOpEq(BinOpKind::Percent)),
                ];
                assert(table_view(keywords@) =~= operators(ch));
                self.read_by(keywords)
            },
            '^' => {
                let keywords = vec![
                    ("^", TokenKind::BinOp(BinOpKind::Caret)),
                    ("^=", TokenKind::BinOpEq(BinOpKind::Caret)),
                ];
                assert(table_view(keywords@) =~= operators(ch));
                self.read_by(keywords)
            },
            '&' => {
                let keywords = vec![
                    ("&", TokenKind::BinOp(BinOpKind::And)),
                    ("&=", TokenKind::BinOpEq(BinOpKind::And)),
                    ("&&", TokenKind::BinOp(BinOpKind::AndAnd)),
                    ("&&=", TokenKind::BinOpEq(BinOpKind::AndAnd)),
                ];
                assert(table_view(keywords@) =~= operators(ch));
                self.read_by(keywords)
            },
            '|' => {
                let keywords = vec![
                    ("|", TokenKind::BinOp(BinOpKind::Or)),
                    ("|=", TokenKind::BinOpEq(BinOpKind::Or)),
                    ("||", TokenKind::BinOp(BinOpKind::OrOr)),
                    ("||=", TokenKind::BinOpEq(BinOpKind::OrOr)),
                ];
                assert(table_view(keywords@) =~= operators(ch));
                self.read_by(keywords)
            },
            '<' => {
                let keywords = vec![
                    ("<", TokenKind::Lt),
                    ("<=", TokenKind::Le),
                    ("<<", TokenKind::BinOp(BinOpKind::ShiftL)),
                    ("<<=", TokenKind::BinOpEq(BinOpKind::ShiftL)),
                ];
                assert(table_view(keywords@) =~= operators(ch));
                self.read_by(keywords)
            },
            '>' => {
                let keywords = vec![
                    (">", TokenKind::Gt),
                    (">=", TokenKind::Ge),
                    (">>", TokenKind::BinOp(BinOpKind::ShiftR)),
                    (">>=", TokenKind::BinOpEq(BinOpKind::ShiftR)),
                ];
                assert(table_view(keywords@) =~= operators(ch));
                self.read_by(keywords)
            },
            '!' => {
                let keywords = vec![
                    ("!", TokenKind::Not),
                    ("!=", TokenKind::Ne),
                ];
                assert(table_view(keywords@) =~= operators(ch));
                self.read_by(keywords)
            },
            '=' => {
                let keywords = vec![
                    ("=", TokenKind::Eq),
                    ("==", TokenKind::EqEq),
                ];
                assert(table_view(keywords@) =~= operators(ch));
                self.read_by(keywords)
            },
            '@' => self.read_kind(TokenKind::At),
            '.' => {
                let keywords = vec![
                    (".", TokenKind::Dot),
                    ("..", TokenKind::DotDot),
                    ("..=", TokenKind::DotDotEq),
                ];
                assert(table_view(keywords@) =~= operators(ch));
                self.read_by(keywords)
            },
            ',' => self.read_kind(TokenKind::Comma),
            ';' => self.read_kind(TokenKind::Semi),
            '(' => self.read_kind(TokenKind::LParen),
            ')' => self.read_kind(TokenKind::RParen),
            '{' => self.read_kind(TokenKind::LBrace),
            '}' => self.read_kind(TokenKind::RBrace),
            '[' => self.read_kind(TokenKind::LBracket),
            ']' => self.read_kind(TokenKind::RBracket),
            '\'' => self.read_char(),
            '"' => self.read_string(),
            'a'..='z' | 'A'..='Z' | '_' => {
                if self.scanner.check_len(2).is_ok() && same_text(
                    self.scanner.peek_len(2)?.as_str(),
                    "r#",
                ) {
                    self.read_raw_ident()
                } else {
                    self.read_keyword()
                }
            },
            ch => {
                if ch.is_whitespace() {
                    self.read_whitespace()
                } else {
                    Err(Error::InvalidCharacter { chr: ch, pos: self.scanner.get_pos() })
                }
            },
        }?;
        Ok(token)
    }

    /// Reads on through the end-of-input token and returns every token
    /// read, that one included. Stops at the first read that fails, with
    /// the cursor on the character that begins no token.
    pub fn read_all(&mut self) -> (r: Result<Vec<Token>, Error>)
        ensures
            final(self)@.input == old(self)@.input,
            match r {
                Ok(tokens) => tokens_from(old(self)@.input, old(self)@.pos) == Ok::<
                    Seq<TokenView>,
                    Error,
                >(token_views(tokens@)) && concat_raw(token_views(tokens@))
                    == old(self)@.input.skip(old(self)@.pos as int) && final(self)@.pos
                    == old(self)@.input.len(),
                Err(e) => tokens_from(old(self)@.input, old(self)@.pos) == Err::<
                    Seq<TokenView>,
                    Error,
                >(e) && e == (Error::InvalidCharacter {
                    chr: old(self)@.input[final(self)@.pos as int],
                    pos: final(self)@.pos as usize,
                }) && old(self)@.pos <= final(self)@.pos < old(self)@.input.len(),
            },
    {
        let mut tokens: Vec<Token> = Vec::new();
        let start = self.scanner.get_pos();
        let ghost input = self.scanner@.input;
        proof {
            lemma_lossless_from(input, start as nat);
        }
        loop
            invariant_except_break
                tokens_from(input, start as nat) == followed_by(
                    token_views(tokens@),
                    tokens_from(input, self.scanner@.pos),
                ),
            invariant
                self.scanner@.input == input,
                input == old(self)@.input,
                start == old(self)@.pos,
                start <= self.scanner@.pos <= input.len(),
            ensures
                tokens_from(input, start as nat) == Ok::<Seq<TokenView>, Error>(
                    token_views(tokens@),
                ),
                self.scanner@.pos == input.len(),
            decreases input.len() - self.scanner@.pos,
        {
            let ghost at = self.scanner@.pos;
            let ghost before = token_views(tokens@);
            proof {
                lemma_token_extent(input, at);
                lemma_fails_on_invalid_character_only(input, at);
            }
            let token = self.read()?;
            let done = match token.kind {
                TokenKind::Eof => true,
                _ => false,
            };
            tokens.push(token);
            proof {
                assert(token_views(tokens@) =~= before + seq![token@]);
                if !done {
                    let rest = tokens_from(input, self.scanner@.pos);
                    if let Ok(more) = rest {
                        assert(before + (seq![token@] + more) =~= token_views(tokens@) + more);
                    }
                }
            }
            if done {
                break ;
            }
        }
        Ok(tokens)
    }
}

} // verus!
