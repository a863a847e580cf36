//! The lexer: it cuts a source text into tokens.
use vstd::prelude::*;
use crate::dsl::token::{lookup_ident, word_type, Token, TokenType, TokenView, TypeView};
use crate::text::{
    byte_count, byte_len, chars_of, is_letter, is_letter_or_digit, is_white, lemma_byte_len_join,
    lemma_byte_len_next, lemma_byte_len_take, text_of,
};

verus! {

broadcast use vstd::string::group_string_axioms;

// ── Positions ────────────────────────────────────────────────────────────────

/// The largest number that a position can be, for what is larger.
pub open spec fn clip(n: nat) -> usize {
    if n <= usize::MAX {
        n as usize
    } else {
        usize::MAX
    }
}

/// How many line ends there are in a text.
pub open spec fn line_ends(s: Seq<char>) -> nat
    decreases s.len(),
{
    if s.len() == 0 {
        0
    } else {
        line_ends(s.drop_last()) + (if s.last() == '\n' {
            1nat
        } else {
            0
        })
    }
}

/// The line on which position `i` of the text stands. A line end stands on the
/// line that it opens.
pub open spec fn line_of(s: Seq<char>, i: int) -> nat {
    1 + line_ends(
        s.take(
            if i < s.len() {
                i + 1
            } else {
                s.len() as int
            },
        ),
    )
}

/// The column of position `i`: 0 for a line end, and from 1 on after it.
pub open spec fn col_of(s: Seq<char>, i: int) -> nat
    decreases i,
{
    if 0 <= i < s.len() && s[i] == '\n' {
        0
    } else if i <= 0 {
        1
    } else {
        col_of(s, i - 1) + 1
    }
}

// ── Tokens ───────────────────────────────────────────────────────────────────

/// The characters of an identifier.
pub open spec fn is_word_char(c: char) -> bool {
    is_letter_or_digit(c) || c == '_'
}

/// The first position from `i` on at which `stop` holds, or the end.
pub open spec fn until(s: Seq<char>, i: int, stop: spec_fn(char) -> bool) -> int
    decreases s.len() - i,
{
    if i < 0 || i >= s.len() || stop(s[i]) {
        i
    } else {
        until(s, i + 1, stop)
    }
}

pub open spec fn not_white() -> spec_fn(char) -> bool {
    |c: char| !is_white(c)
}

pub open spec fn line_end() -> spec_fn(char) -> bool {
    |c: char| c == '\n'
}

pub open spec fn not_word() -> spec_fn(char) -> bool {
    |c: char| !is_word_char(c)
}

pub open spec fn quote_or_line_end() -> spec_fn(char) -> bool {
    |c: char| c == '`' || c == '\n'
}

pub open spec fn path_end() -> spec_fn(char) -> bool {
    |c: char| is_white(c) || c == ';'
}

pub proof fn lemma_until(s: Seq<char>, i: int, stop: spec_fn(char) -> bool)
    requires
        0 <= i <= s.len(),
    ensures
        i <= until(s, i, stop) <= s.len(),
        until(s, i, stop) < s.len() ==> stop(s[until(s, i, stop)]),
    decreases s.len() - i,
{
    if i < s.len() && !stop(s[i]) {
        lemma_until(s, i + 1, stop);
    }
}

/// The first position from `i` on that is neither blank nor part of a comment.
/// A comment goes from `#` to the end of its line.
pub open spec fn token_start(s: Seq<char>, i: int) -> int
    decreases s.len() - i,
    via token_start_decreases
{
    let j = until(s, i, not_white());
    if 0 <= i && 0 <= j < s.len() && s[j] == '#' {
        token_start(s, until(s, j, line_end()))
    } else {
        j
    }
}

#[via_fn]
proof fn token_start_decreases(s: Seq<char>, i: int) {
    let j = until(s, i, not_white());
    if 0 <= i && 0 <= j < s.len() && s[j] == '#' {
        if i <= s.len() {
            lemma_until(s, i, not_white());
        }
        lemma_until(s, j + 1, line_end());
    }
}

/// The token that starts at position `i`, and the position after it.
pub open spec fn token_at(s: Seq<char>, i: int) -> (TypeView, int) {
    if i >= s.len() {
        (TypeView::Eof, i)
    } else if s[i] == '{' {
        (TypeView::LBrace, i + 1)
    } else if s[i] == '}' {
        (TypeView::RBrace, i + 1)
    } else if s[i] == '[' {
        (TypeView::LBracket, i + 1)
    } else if s[i] == ']' {
        (TypeView::RBracket, i + 1)
    } else if s[i] == ',' {
        (TypeView::Comma, i + 1)
    } else if s[i] == ';' {
        (TypeView::Semicolon, i + 1)
    } else if s[i] == '$' {
        (TypeView::Dollar, i + 1)
    } else if s[i] == '=' {
        if i + 1 < s.len() && s[i + 1] == '>' {
            (TypeView::Arrow, i + 2)
        } else {
            (TypeView::Assign, i + 1)
        }
    } else if s[i] == ':' && i + 1 < s.len() && s[i + 1] == ':' {
        (TypeView::NamespaceSep, i + 2)
    } else if starts_path(s, i) {
        let end = until(s, i, path_end());
        (TypeView::PathLit(s.subrange(i, end)), end)
    } else if s[i] == '`' {
        let end = until(s, i + 1, quote_or_line_end());
        if end < s.len() && s[end] == '`' {
            (TypeView::Backtick(s.subrange(i + 1, end)), end + 1)
        } else {
            (TypeView::Illegal("unterminated backtick string"@), end)
        }
    } else if is_letter(s[i]) || s[i] == '_' {
        let end = until(s, i, not_word());
        (word_type(s.subrange(i, end)), end)
    } else {
        (TypeView::Illegal("unexpected character: "@.push(s[i])), i + 1)
    }
}

/// Whether a path starts at position `i`: with `./` or `../`.
pub open spec fn starts_path(s: Seq<char>, i: int) -> bool {
    ||| i + 1 < s.len() && s[i] == '.' && s[i + 1] == '/'
    ||| i + 2 < s.len() && s[i] == '.' && s[i + 1] == '.' && s[i + 2] == '/'
}

/// The next token from position `i` on, with its place, and the position after it.
pub open spec fn next_at(s: Seq<char>, i: int) -> (TokenView, int) {
    let start = token_start(s, i);
    let (ty, end) = token_at(s, start);
    (
        TokenView {
            ty,
            line: clip(line_of(s, start)),
            col: clip(col_of(s, start)),
            offset: byte_len(s.take(start)) as usize,
            len: byte_len(s.subrange(start, end)) as usize,
        },
        end,
    )
}

/// A token ends after it starts, and no later than the text, or else is the end.
pub proof fn lemma_token_at(s: Seq<char>, i: int)
    requires
        0 <= i <= s.len(),
    ensures
        i <= token_at(s, i).1 <= s.len(),
        !(token_at(s, i).0 is Eof) ==> i < token_at(s, i).1,
{
    if i < s.len() {
        if starts_path(s, i) {
            lemma_until(s, i + 1, path_end());
        }
        lemma_until(s, i + 1, quote_or_line_end());
        lemma_until(s, i + 1, not_word());
    }
}

pub proof fn lemma_token_start(s: Seq<char>, i: int)
    requires
        0 <= i <= s.len(),
    ensures
        i <= token_start(s, i) <= s.len(),
    decreases s.len() - i,
{
    let j = until(s, i, not_white());
    lemma_until(s, i, not_white());
    if j < s.len() && s[j] == '#' {
        lemma_until(s, j + 1, line_end());
        lemma_token_start(s, until(s, j, line_end()));
    }
}

/// The tokens from position `i` on, up to the end.
pub open spec fn tokens_from(s: Seq<char>, i: int) -> Seq<TokenView>
    decreases s.len() - i,
    via tokens_from_decreases
{
    if 0 <= i <= s.len() {
        let (tok, end) = next_at(s, i);
        if tok.ty is Eof {
            Seq::empty()
        } else {
            seq![tok] + tokens_from(s, end)
        }
    } else {
        Seq::empty()
    }
}

#[via_fn]
proof fn tokens_from_decreases(s: Seq<char>, i: int) {
    if 0 <= i <= s.len() {
        lemma_token_start(s, i);
        lemma_token_at(s, token_start(s, i));
    }
}

/// The token at the end of the text, as met from position `i` on.
pub open spec fn eof_from(s: Seq<char>, i: int) -> TokenView
    decreases s.len() - i,
    via eof_from_decreases
{
    let (tok, end) = next_at(s, i);
    if tok.ty is Eof || !(0 <= i <= s.len()) {
        tok
    } else {
        eof_from(s, end)
    }
}

#[via_fn]
proof fn eof_from_decreases(s: Seq<char>, i: int) {
    if 0 <= i <= s.len() {
        lemma_token_start(s, i);
        lemma_token_at(s, token_start(s, i));
    }
}

/// A token never reaches into the next one: each starts where the one before
/// ends, or later.
pub proof fn law_tokens_in_order(s: Seq<char>, i: int)
    requires
        0 <= i <= s.len(),
        byte_len(s) <= usize::MAX,
    ensures
        ({
            let (first, end) = next_at(s, i);
            let (second, _) = next_at(s, end);
            first.offset + first.len <= second.offset
        }),
{
    let start = token_start(s, i);
    lemma_token_start(s, i);
    lemma_token_at(s, start);
    let end = token_at(s, start).1;
    let next = token_start(s, end);
    lemma_token_start(s, end);
    assert(s.take(start) + s.subrange(start, end) =~= s.take(end));
    lemma_byte_len_join(s.take(start), s.subrange(start, end));
    assert(s.take(end) + s.subrange(end, next) =~= s.take(next));
    lemma_byte_len_join(s.take(end), s.subrange(end, next));
    lemma_byte_len_take(s, next);
}

proof fn lemma_until_all(s: Seq<char>, i: int, n: int, stop: spec_fn(char) -> bool)
    requires
        0 <= i <= n <= s.len(),
        forall|k: int| i <= k < n ==> !stop(#[trigger] s[k]),
        n < s.len() ==> stop(s[n]),
    ensures
        until(s, i, stop) == n,
    decreases n - i,
{
    if i < n {
        lemma_until_all(s, i + 1, n, stop);
    }
}

/// A text without backticks and line ends, put in backticks, is read as a token
/// that holds it, whatever follows.
pub proof fn law_backtick_text(text: Seq<char>, after: Seq<char>)
    requires
        forall|i: int| 0 <= i < text.len() ==> text[i] != '`' && #[trigger] text[i] != '\n',
    ensures
        token_at(seq!['`'] + text + seq!['`'] + after, 0) == (
            TypeView::Backtick(text),
            text.len() as int + 2,
        ),
{
    let s = seq!['`'] + text + seq!['`'] + after;
    let n = text.len() as int + 1;
    assert forall|k: int| 1 <= k < n implies !quote_or_line_end()(#[trigger] s[k]) by {
        assert(s[k] == text[k - 1]);
    }
    assert(s[n] == '`');
    lemma_until_all(s, 1, n, quote_or_line_end());
    assert(s.subrange(1, n) =~= text);
    assert(s[0] == '`');
}

/// A lexer at work on a text.
#[derive(Debug)]
pub struct Lexer {
    input: Vec<char>,
    pos: usize,
    ch: Option<char>,
    line: usize,
    col: usize,
    byte_offset: usize,
}

impl Lexer {
    /// The text.
    pub closed spec fn source(&self) -> Seq<char> {
        self.input@
    }

    /// How far the text has been read.
    pub closed spec fn position(&self) -> int {
        self.pos as int
    }

    /// The fields agree with each other.
    pub closed spec fn wf(&self) -> bool {
        &&& self.pos <= self.input@.len()
        &&& self.ch == if self.pos < self.input@.len() {
            Some(self.input@[self.pos as int])
        } else {
            None
        }
        &&& self.line == clip(line_of(self.input@, self.pos as int))
        &&& self.col == clip(col_of(self.input@, self.pos as int))
        &&& byte_len(self.input@) <= usize::MAX
        &&& self.byte_offset == byte_len(self.input@.take(self.pos as int))
    }

    /// A lexer at the start of a text.
    pub fn new(input: String) -> (r: Self)
        ensures
            r.wf(),
            r.source() == input@,
            r.position() == 0,
    {
        let total = byte_count(input.as_str());
        let chars = chars_of(input.as_str());
        let ch = if chars.len() > 0 {
            Some(chars[0])
        } else {
            None
        };
        let (line, col): (usize, usize) = if let Some('\n') = ch {
            (2, 0)
        } else {
            (1, 1)
        };
        proof {
            let s = input@;
            assert(total == byte_len(s));
            assert(s.take(0) =~= Seq::<char>::empty());
            if s.len() > 0 {
                assert(s.take(1).drop_last() =~= Seq::<char>::empty());
                assert(line_ends(Seq::<char>::empty()) == 0);
            } else {
                assert(s.take(s.len() as int) =~= Seq::<char>::empty());
            }
        }
        Lexer { input: chars, pos: 0, ch, line, col, byte_offset: 0 }
    }

    /// The text that the lexer works on.
    pub fn into_source(self) -> (r: String)
        ensures
            r@ == self.source(),
    {
        let n: usize = self.input.len();
        let r = text_of(&self.input, 0, n);
        assert(r@ =~= self.input@);
        r
    }

    /// How many bytes the text has.
    pub fn source_len(&self) -> (n: usize)
        requires
            self.wf(),
        ensures
            n == byte_len(self.source()),
            0 <= self.position() <= self.source().len(),
    {
        let mut n: usize = 0;
        let mut i: usize = 0;
        assert(self.input@.take(0) =~= Seq::<char>::empty());
        while i < self.input.len()
            invariant
                self.wf(),
                i <= self.input@.len(),
                n == byte_len(self.input@.take(i as int)),
            decreases self.input@.len() - i,
        {
            proof {
                lemma_byte_len_next(self.input@, i as int);
            }
            n = n + self.input[i].len_utf8();
            i += 1;
        }
        assert(self.input@.take(i as int) =~= self.input@);
        n
    }

    /// Go on to the next character.
    fn read_char(&mut self)
        requires
            old(self).wf(),
            old(self).ch is Some,
        ensures
            final(self).wf(),
            final(self).input == old(self).input,
            final(self).pos == old(self).pos + 1,
    {
        let ghost s = self.input@;
        let ghost i = self.pos as int;
        proof {
            lemma_byte_len_next(s, i);
            lemma_byte_len_take(s, i + 1);
        }
        if let Some(c) = self.ch {
            self.byte_offset = self.byte_offset + c.len_utf8();
        }
        let next: usize = self.pos + 1;
        self.pos = next;
        self.ch = if next < self.input.len() {
            Some(self.input[next])
        } else {
            None
        };
        proof {
            if next < s.len() {
                assert(s.take(next + 1).drop_last() =~= s.take(next as int));
            }
        }
        if let Some('\n') = self.ch {
            self.line = self.line.saturating_add(1);
            self.col = 0;
        } else {
            self.col = self.col.saturating_add(1);
        }
    }

    /// Read on to the next character that is not blank.
    fn skip_whitespace(&mut self)
        requires
            old(self).wf(),
        ensures
            final(self).wf(),
            final(self).input == old(self).input,
            final(self).pos == until(old(self).input@, old(self).pos as int, not_white()),
    {
        let ghost s = self.input@;
        let ghost from = self.pos as int;
        loop
            invariant_except_break
                self.wf(),
                self.input@ == s,
                self.input == old(self).input,
                until(s, from, not_white()) == until(s, self.pos as int, not_white()),
            ensures
                self.wf(),
                self.input@ == s,
                self.input == old(self).input,
                self.pos == until(s, from, not_white()),
            decreases s.len() - self.pos,
        {
            let c = match self.ch {
                Some(c) => c,
                None => {
                    break;
                },
            };
            if !c.is_whitespace() {
                break;
            }
            self.read_char();
        }
    }

    /// Read on to the end of the line.
    fn skip_comment(&mut self)
        requires
            old(self).wf(),
        ensures
            final(self).wf(),
            final(self).input == old(self).input,
            final(self).pos == until(old(self).input@, old(self).pos as int, line_end()),
    {
        let ghost s = self.input@;
        let ghost from = self.pos as int;
        loop
            invariant_except_break
                self.wf(),
                self.input@ == s,
                self.input == old(self).input,
                until(s, from, line_end()) == until(s, self.pos as int, line_end()),
            ensures
                self.wf(),
                self.input@ == s,
                self.input == old(self).input,
                self.pos == until(s, from, line_end()),
            decreases s.len() - self.pos,
        {
            let c = match self.ch {
                Some(c) => c,
                None => {
                    break;
                },
            };
            if c == '\n' {
                break;
            }
            self.read_char();
        }
    }

    /// Read on over a word.
    fn skip_word(&mut self)
        requires
            old(self).wf(),
        ensures
            final(self).wf(),
            final(self).input == old(self).input,
            final(self).pos == until(old(self).input@, old(self).pos as int, not_word()),
            old(self).pos < old(self).input@.len() && (is_letter(
                old(self).input@[old(self).pos as int],
            ) || old(self).input@[old(self).pos as int] == '_') ==> final(self).pos > old(self).pos,
    {
        let ghost s = self.input@;
        let ghost from = self.pos as int;
        loop
            invariant_except_break
                self.wf(),
                self.input@ == s,
                self.input == old(self).input,
                from <= self.pos,
                from == old(self).pos,
                until(s, from, not_word()) == until(s, self.pos as int, not_word()),
            ensures
                self.wf(),
                self.input@ == s,
                self.input == old(self).input,
                self.pos == until(s, from, not_word()),
                from <= self.pos,
                from < s.len() && (is_letter(s[from]) || s[from] == '_') ==> self.pos > from,
            decreases s.len() - self.pos,
        {
            let c = match self.ch {
                Some(c) => c,
                None => {
                    break;
                },
            };
            if !(c.is_alphanumeric() || c == '_') {
                break;
            }
            self.read_char();
        }
    }

    /// Read on to a quote or the end of the line.
    fn skip_quoted(&mut self)
        requires
            old(self).wf(),
        ensures
            final(self).wf(),
            final(self).input == old(self).input,
            final(self).pos == until(old(self).input@, old(self).pos as int, quote_or_line_end()),
    {
        let ghost s = self.input@;
        let ghost from = self.pos as int;
        loop
            invariant_except_break
                self.wf(),
                self.input@ == s,
                self.input == old(self).input,
                until(s, from, quote_or_line_end()) == until(
                    s,
                    self.pos as int,
                    quote_or_line_end(),
                ),
            ensures
                self.wf(),
                self.input@ == s,
                self.input == old(self).input,
                self.pos == until(s, from, quote_or_line_end()),
            decreases s.len() - self.pos,
        {
            let c = match self.ch {
                Some(c) => c,
                None => {
                    break;
                },
            };
            if c == '`' || c == '\n' {
                break;
            }
            self.read_char();
        }
    }

    /// Read on to the end of a path.
    fn skip_path(&mut self)
        requires
            old(self).wf(),
        ensures
            final(self).wf(),
            final(self).input == old(self).input,
            final(self).pos == until(old(self).input@, old(self).pos as int, path_end()),
    {
        let ghost s = self.input@;
        let ghost from = self.pos as int;
        loop
            invariant_except_break
                self.wf(),
                self.input@ == s,
                self.input == old(self).input,
                until(s, from, path_end()) == until(s, self.pos as int, path_end()),
            ensures
                self.wf(),
                self.input@ == s,
                self.input == old(self).input,
                self.pos == until(s, from, path_end()),
            decreases s.len() - self.pos,
        {
            let c = match self.ch {
                Some(c) => c,
                None => {
                    break;
                },
            };
            if c.is_whitespace() || c == ';' {
                break;
            }
            self.read_char();
        }
    }

    /// Read on to where the next token starts.
    fn skip_to_token(&mut self)
        requires
            old(self).wf(),
        ensures
            final(self).wf(),
            final(self).input == old(self).input,
            final(self).pos == token_start(old(self).input@, old(self).pos as int),
            final(self).pos >= old(self).pos,
    {
        let ghost s = self.input@;
        let ghost from = self.pos as int;
        loop
            invariant_except_break
                self.wf(),
                self.input@ == s,
                self.input == old(self).input,
                from <= self.pos,
                from == old(self).pos,
                token_start(s, from) == token_start(s, self.pos as int),
            ensures
                self.wf(),
                self.input@ == s,
                self.input == old(self).input,
                from <= self.pos,
                self.pos == token_start(s, from),
            decreases s.len() - self.pos,
        {
            proof {
                lemma_until(s, self.pos as int, not_white());
            }
            self.skip_whitespace();
            match self.ch {
                Some('#') => {},
                _ => {
                    break;
                },
            }
            proof {
                lemma_until(s, self.pos + 1, line_end());
            }
            self.skip_comment();
        }
    }

    /// The character after the current one.
    fn peek(&self, ahead: usize) -> (r: Option<char>)
        requires
            self.wf(),
            ahead <= 2,
        ensures
            r == if self.pos + ahead < self.input@.len() {
                Some(self.input@[self.pos + ahead])
            } else {
                None::<char>
            },
    {
        if self.input.len() > ahead && self.pos < self.input.len() - ahead {
            Some(self.input[self.pos + ahead])
        } else {
            None
        }
    }

    /// A word: a keyword or an identifier.
    fn read_ident(&mut self) -> (r: TokenType)
        requires
            old(self).wf(),
        ensures
            final(self).wf(),
            final(self).input == old(self).input,
            final(self).pos >= old(self).pos,
            final(self).pos == until(old(self).input@, old(self).pos as int, not_word()),
            r@ == word_type(old(self).input@.subrange(old(self).pos as int, final(self).pos as int)),
            old(self).pos < old(self).input@.len() && (is_letter(
                old(self).input@[old(self).pos as int],
            ) || old(self).input@[old(self).pos as int] == '_') ==> final(self).pos > old(self).pos,
    {
        let start = self.pos;
        proof {
            lemma_until(self.input@, start as int, not_word());
        }
        self.skip_word();
        let word = text_of(&self.input, start, self.pos);
        lookup_ident(word.as_str())
    }

    /// A text in backticks.
    fn read_backtick(&mut self) -> (r: TokenType)
        requires
            old(self).wf(),
            old(self).ch == Some('`'),
        ensures
            final(self).wf(),
            final(self).input == old(self).input,
            final(self).pos > old(self).pos,
            ({
                let s = old(self).input@;
                let end = until(s, old(self).pos + 1, quote_or_line_end());
                if end < s.len() && s[end] == '`' {
                    r@ == TypeView::Backtick(s.subrange(old(self).pos + 1, end))
                        && final(self).pos == end + 1
                } else {
                    r@ == TypeView::Illegal("unterminated backtick string"@) && final(self).pos
                        == end
                }
            }),
    {
        self.read_char();
        let start = self.pos;
        proof {
            lemma_until(self.input@, start as int, quote_or_line_end());
        }
        self.skip_quoted();
        let end = self.pos;
        match self.ch {
            Some('`') => {
                let content = text_of(&self.input, start, end);
                self.read_char();
                TokenType::Backtick(content)
            },
            _ => TokenType::Illegal("unterminated backtick string".to_owned()),
        }
    }

    /// Take the current character as a token.
    fn single(&mut self, ty: TokenType) -> (r: TokenType)
        requires
            old(self).wf(),
            old(self).ch is Some,
        ensures
            r == ty,
            final(self).wf(),
            final(self).input == old(self).input,
            final(self).pos == old(self).pos + 1,
    {
        self.read_char();
        ty
    }

    /// Read the token that starts at the current character.
    fn read_type(&mut self) -> (r: TokenType)
        requires
            old(self).wf(),
        ensures
            final(self).wf(),
            final(self).input == old(self).input,
            token_at(old(self).input@, old(self).pos as int) == (r@, final(self).pos as int),
            old(self).pos <= final(self).pos,
            old(self).pos < old(self).input@.len() ==> old(self).pos < final(self).pos,
    {
        let ghost s = self.input@;
        let ghost i = self.pos as int;
        let c = match self.ch {
            None => {
                return TokenType::Eof;
            },
            Some(c) => c,
        };
        match c {
            '{' => self.single(TokenType::LBrace),
            '}' => self.single(TokenType::RBrace),
            '[' => self.single(TokenType::LBracket),
            ']' => self.single(TokenType::RBracket),
            ',' => self.single(TokenType::Comma),
            ';' => self.single(TokenType::Semicolon),
            '$' => self.single(TokenType::Dollar),
            '=' => {
                let next = self.peek(1);
                self.read_char();
                if let Some('>') = next {
                    self.single(TokenType::Arrow)
                } else {
                    TokenType::Assign
                }
            },
            '`' => self.read_backtick(),
            _ => {
                if c == ':' {
                    if let Some(':') = self.peek(1) {
                        self.read_char();
                        return self.single(TokenType::NamespaceSep);
                    }
                }
                if c == '.' {
                    let one = self.peek(1);
                    let two = self.peek(2);
                    let path = match one {
                        Some('/') => true,
                        Some('.') => two == Some('/'),
                        _ => false,
                    };
                    if path {
                        let start = self.pos;
                        proof {
                            lemma_until(s, i + 1, path_end());
                        }
                        self.skip_path();
                        return TokenType::PathLit(text_of(&self.input, start, self.pos));
                    }
                }
                if c.is_alphabetic() || c == '_' {
                    return self.read_ident();
                }
                let mut msg = "unexpected character: ".to_owned();
                msg.push(c);
                self.single(TokenType::Illegal(msg))
            },
        }
    }

    /// The next token. At the end of the text it is `Eof`, again and again.
    pub fn next_token(&mut self) -> (r: Token)
        requires
            old(self).wf(),
        ensures
            final(self).wf(),
            final(self).source() == old(self).source(),
            next_at(old(self).source(), old(self).position()) == (r@, final(self).position()),
            old(self).position() <= final(self).position() <= old(self).source().len(),
            !(r.ty@ is Eof) ==> old(self).position() < final(self).position(),
            r.offset + r.len <= byte_len(old(self).source()),
    {
        self.skip_to_token();
        let ghost s = self.input@;
        let ghost start = self.pos as int;
        let line = self.line;
        let col = self.col;
        let offset = self.byte_offset;
        let ty = self.read_type();
        proof {
            let end = self.pos as int;
            assert(s.take(start) + s.subrange(start, end) =~= s.take(end));
            lemma_byte_len_join(s.take(start), s.subrange(start, end));
            lemma_byte_len_take(s, end);
        }
        Token::new(ty, line, col, offset, self.byte_offset - offset)
    }
}

} // verus!
