//! The tokens of the template language. A template is one token.
use vstd::prelude::*;
use crate::dsl::lexer::{
    lemma_token_start, lemma_until, line_end, not_white, not_word, token_start, until,
};
use crate::syntax::{part_views, Part, PartView, Template, TemplateView};
use crate::text::{
    byte_count, byte_len, chars_of, is_letter, lemma_byte_len_join, lemma_byte_len_next, same,
    text_of,
};

verus! {

broadcast use vstd::string::group_string_axioms;

/// What a token is.
#[derive(Debug, PartialEq)]
pub enum TokenType {
    Eof,
    Illegal(String),
    Ident(String),
    Template(Template),
    LBrace,
    RBrace,
    LBracket,
    RBracket,
    Semicolon,
    Assign,
    Arrow,
    NamespaceSep,
    Import,
    Shell,
    Timeout,
    Var,
    Sync,
    Pr,
    Fn,
    Run,
    Log,
    Exec,
    Bind,
    Cd,
    Env,
    Switch,
    Case,
}

/// What a token is, by its contents.
pub enum TypeView {
    Eof,
    Illegal(Seq<char>),
    Ident(Seq<char>),
    Template(TemplateView),
    LBrace,
    RBrace,
    LBracket,
    RBracket,
    Semicolon,
    Assign,
    Arrow,
    NamespaceSep,
    Import,
    Shell,
    Timeout,
    Var,
    Sync,
    Pr,
    Fn,
    Run,
    Log,
    Exec,
    Bind,
    Cd,
    Env,
    Switch,
    Case,
}

impl TokenType {
    pub open spec fn view(&self) -> TypeView {
        match self {
            TokenType::Eof => TypeView::Eof,
            TokenType::Illegal(s) => TypeView::Illegal(s@),
            TokenType::Ident(s) => TypeView::Ident(s@),
            TokenType::Template(t) => TypeView::Template(t@),
            TokenType::LBrace => TypeView::LBrace,
            TokenType::RBrace => TypeView::RBrace,
            TokenType::LBracket => TypeView::LBracket,
            TokenType::RBracket => TypeView::RBracket,
            TokenType::Semicolon => TypeView::Semicolon,
            TokenType::Assign => TypeView::Assign,
            TokenType::Arrow => TypeView::Arrow,
            TokenType::NamespaceSep => TypeView::NamespaceSep,
            TokenType::Import => TypeView::Import,
            TokenType::Shell => TypeView::Shell,
            TokenType::Timeout => TypeView::Timeout,
            TokenType::Var => TypeView::Var,
            TokenType::Sync => TypeView::Sync,
            TokenType::Pr => TypeView::Pr,
            TokenType::Fn => TypeView::Fn,
            TokenType::Run => TypeView::Run,
            TokenType::Log => TypeView::Log,
            TokenType::Exec => TypeView::Exec,
            TokenType::Bind => TypeView::Bind,
            TokenType::Cd => TypeView::Cd,
            TokenType::Env => TypeView::Env,
            TokenType::Switch => TypeView::Switch,
            TokenType::Case => TypeView::Case,
        }
    }
}

/// A token and its place: offset and length in bytes.
#[derive(Debug, PartialEq)]
pub struct Token {
    pub ty: TokenType,
    pub offset: usize,
    pub len: usize,
}

/// A token, by its contents.
pub struct TokenView {
    pub ty: TypeView,
    pub offset: usize,
    pub len: usize,
}

impl Token {
    pub open spec fn view(&self) -> TokenView {
        TokenView { ty: self.ty@, offset: self.offset, len: self.len }
    }
}

pub open spec fn token_seq(s: Seq<Token>) -> Seq<TokenView> {
    Seq::new(s.len(), |i: int| s[i]@)
}

/// The keyword that a word is, or the identifier.
pub open spec fn word_type(s: Seq<char>) -> TypeView {
    if s == "import"@ {
        TypeView::Import
    } else if s == "shell"@ {
        TypeView::Shell
    } else if s == "timeout"@ {
        TypeView::Timeout
    } else if s == "var"@ {
        TypeView::Var
    } else if s == "sync"@ {
        TypeView::Sync
    } else if s == "pr"@ {
        TypeView::Pr
    } else if s == "fn"@ {
        TypeView::Fn
    } else if s == "run"@ {
        TypeView::Run
    } else if s == "log"@ {
        TypeView::Log
    } else if s == "exec"@ {
        TypeView::Exec
    } else if s == "bind"@ {
        TypeView::Bind
    } else if s == "cd"@ {
        TypeView::Cd
    } else if s == "env"@ {
        TypeView::Env
    } else if s == "switch"@ {
        TypeView::Switch
    } else if s == "case"@ {
        TypeView::Case
    } else {
        TypeView::Ident(s)
    }
}

fn lookup_word(word: &str) -> (r: TokenType)
    ensures
        r@ == word_type(word@),
{
    if same(word, "import") {
        TokenType::Import
    } else if same(word, "shell") {
        TokenType::Shell
    } else if same(word, "timeout") {
        TokenType::Timeout
    } else if same(word, "var") {
        TokenType::Var
    } else if same(word, "sync") {
        TokenType::Sync
    } else if same(word, "pr") {
        TokenType::Pr
    } else if same(word, "fn") {
        TokenType::Fn
    } else if same(word, "run") {
        TokenType::Run
    } else if same(word, "log") {
        TokenType::Log
    } else if same(word, "exec") {
        TokenType::Exec
    } else if same(word, "bind") {
        TokenType::Bind
    } else if same(word, "cd") {
        TokenType::Cd
    } else if same(word, "env") {
        TokenType::Env
    } else if same(word, "switch") {
        TokenType::Switch
    } else if same(word, "case") {
        TokenType::Case
    } else {
        TokenType::Ident(word.to_owned())
    }
}

/// Whether a token type is a keyword.
pub open spec fn is_keyword(ty: TypeView) -> bool {
    match ty {
        TypeView::Import => true,
        TypeView::Shell => true,
        TypeView::Timeout => true,
        TypeView::Var => true,
        TypeView::Sync => true,
        TypeView::Pr => true,
        TypeView::Fn => true,
        TypeView::Run => true,
        TypeView::Log => true,
        TypeView::Exec => true,
        TypeView::Bind => true,
        TypeView::Cd => true,
        TypeView::Env => true,
        TypeView::Switch => true,
        TypeView::Case => true,
        _ => false,
    }
}

/// Whether a token type is a keyword.
pub fn is_keyword_token(ty: &TokenType) -> (r: bool)
    ensures
        r == is_keyword(ty@),
{
    match ty {
        TokenType::Import => true,
        TokenType::Shell => true,
        TokenType::Timeout => true,
        TokenType::Var => true,
        TokenType::Sync => true,
        TokenType::Pr => true,
        TokenType::Fn => true,
        TokenType::Run => true,
        TokenType::Log => true,
        TokenType::Exec => true,
        TokenType::Bind => true,
        TokenType::Cd => true,
        TokenType::Env => true,
        TokenType::Switch => true,
        TokenType::Case => true,
        _ => false,
    }
}

/// How a token is called in messages.
pub open spec fn token_name(ty: TypeView) -> Seq<char> {
    match ty {
        TypeView::Eof => "end of file"@,
        TypeView::Illegal(s) => "`"@ + s + "`"@,
        TypeView::Ident(s) => "`"@ + s + "`"@,
        TypeView::Template(_) => "template"@,
        TypeView::LBrace => "`{`"@,
        TypeView::RBrace => "`}`"@,
        TypeView::LBracket => "`[`"@,
        TypeView::RBracket => "`]`"@,
        TypeView::Semicolon => "`;`"@,
        TypeView::Assign => "`=`"@,
        TypeView::Arrow => "`=>`"@,
        TypeView::NamespaceSep => "`::`"@,
        TypeView::Import => "`import`"@,
        TypeView::Shell => "`shell`"@,
        TypeView::Timeout => "`timeout`"@,
        TypeView::Var => "`var`"@,
        TypeView::Sync => "`sync`"@,
        TypeView::Pr => "`pr`"@,
        TypeView::Fn => "`fn`"@,
        TypeView::Run => "`run`"@,
        TypeView::Log => "`log`"@,
        TypeView::Exec => "`exec`"@,
        TypeView::Bind => "`bind`"@,
        TypeView::Cd => "`cd`"@,
        TypeView::Env => "`env`"@,
        TypeView::Switch => "`switch`"@,
        TypeView::Case => "`case`"@,
    }
}

fn in_quotes(s: &str) -> (r: String)
    ensures
        r@ == "`"@ + s@ + "`"@,
{
    let mut r = "`".to_owned();
    r.push_str(s);
    r.push_str("`");
    r
}

/// The name of a token for messages.
pub fn format_token(ty: &TokenType) -> (r: String)
    ensures
        r@ == token_name(ty@),
{
    match ty {
        TokenType::Eof => "end of file".to_owned(),
        TokenType::Illegal(s) => in_quotes(s.as_str()),
        TokenType::Ident(s) => in_quotes(s.as_str()),
        TokenType::Template(_) => "template".to_owned(),
        TokenType::LBrace => "`{`".to_owned(),
        TokenType::RBrace => "`}`".to_owned(),
        TokenType::LBracket => "`[`".to_owned(),
        TokenType::RBracket => "`]`".to_owned(),
        TokenType::Semicolon => "`;`".to_owned(),
        TokenType::Assign => "`=`".to_owned(),
        TokenType::Arrow => "`=>`".to_owned(),
        TokenType::NamespaceSep => "`::`".to_owned(),
        TokenType::Import => "`import`".to_owned(),
        TokenType::Shell => "`shell`".to_owned(),
        TokenType::Timeout => "`timeout`".to_owned(),
        TokenType::Var => "`var`".to_owned(),
        TokenType::Sync => "`sync`".to_owned(),
        TokenType::Pr => "`pr`".to_owned(),
        TokenType::Fn => "`fn`".to_owned(),
        TokenType::Run => "`run`".to_owned(),
        TokenType::Log => "`log`".to_owned(),
        TokenType::Exec => "`exec`".to_owned(),
        TokenType::Bind => "`bind`".to_owned(),
        TokenType::Cd => "`cd`".to_owned(),
        TokenType::Env => "`env`".to_owned(),
        TokenType::Switch => "`switch`".to_owned(),
        TokenType::Case => "`case`".to_owned(),
    }
}

// ── Templates ────────────────────────────────────────────────────────────────

pub open spec fn closing_paren() -> spec_fn(char) -> bool {
    |c: char| c == ')'
}

/// Literal text as a piece, where there is any.
pub open spec fn literal(text: Seq<char>) -> Seq<PartView> {
    if text.len() > 0 {
        seq![PartView::Lit(text)]
    } else {
        Seq::empty()
    }
}

/// The bytes before position `i`.
pub open spec fn offset_of(s: Seq<char>, i: int) -> usize {
    byte_len(s.take(i)) as usize
}

/// The bytes from position `i` up to position `j`.
pub open spec fn length_of(s: Seq<char>, i: int, j: int) -> usize {
    (byte_len(s.take(j)) - byte_len(s.take(i))) as usize
}

/// The pieces of a template from position `i` on, up to its closing
/// parenthesis, and the position after that. `text` is literal text that came
/// just before, and `depth` counts the parentheses that are open in it:
/// parentheses in literal text are kept, as long as they are paired.
pub open spec fn body_at(
    name: Seq<char>,
    s: Seq<char>,
    i: int,
    text: Seq<char>,
    depth: nat,
) -> Result<(Seq<PartView>, int), Seq<char>>
    decreases s.len() - i,
    via body_at_decreases
{
    if i < 0 || i >= s.len() {
        Err("unterminated template"@)
    } else if s[i] == '@' && i + 1 < s.len() && s[i + 1] == '(' {
        let close = until(s, i + 2, closing_paren());
        if close >= s.len() {
            Err("unterminated template"@)
        } else if close == i + 2 {
            Err("empty variable name in template"@)
        } else {
            match body_at(name, s, close + 1, Seq::empty(), depth) {
                Err(e) => Err(e),
                Ok((more, end)) => Ok(
                    (literal(text) + seq![PartView::Var(s.subrange(i + 2, close))] + more, end),
                ),
            }
        }
    } else if s[i] == '$' && i + 1 < s.len() && s[i + 1] == '(' {
        match body_at(name, s, i + 2, Seq::empty(), 0) {
            Err(e) => Err(e),
            Ok((parts, end)) => if i < end <= s.len() {
                match body_at(name, s, end, Seq::empty(), depth) {
                    Err(e) => Err(e),
                    Ok((more, last)) => Ok(
                        (
                            literal(text) + seq![
                                PartView::Cmd(
                                    TemplateView {
                                        parts,
                                        offset: offset_of(s, i),
                                        len: length_of(s, i, end),
                                        source_name: name,
                                    },
                                ),
                            ] + more,
                            last,
                        ),
                    ),
                }
            } else {
                arbitrary()
            },
        }
    } else if s[i] == '(' {
        body_at(name, s, i + 1, text.push(s[i]), depth + 1)
    } else if s[i] == ')' {
        if depth == 0 {
            Ok((literal(text), i + 1))
        } else {
            body_at(name, s, i + 1, text.push(s[i]), (depth - 1) as nat)
        }
    } else {
        body_at(name, s, i + 1, text.push(s[i]), depth)
    }
}

#[via_fn]
proof fn body_at_decreases(
    name: Seq<char>,
    s: Seq<char>,
    i: int,
    text: Seq<char>,
    depth: nat,
) {
    if 0 <= i && i + 1 < s.len() {
        lemma_until(s, i + 2, closing_paren());
    }
}

/// A template that starts at position `i`: text in parentheses, a command or a
/// variable alone; and the position after it.
pub open spec fn template_at(name: Seq<char>, s: Seq<char>, i: int) -> Result<
    (TemplateView, int),
    Seq<char>,
> {
    if s[i] == '(' {
        match body_at(name, s, i + 1, Seq::empty(), 0) {
            Err(e) => Err(e),
            Ok((parts, end)) => Ok(
                (
                    TemplateView {
                        parts,
                        offset: offset_of(s, i),
                        len: length_of(s, i, end),
                        source_name: name,
                    },
                    end,
                ),
            ),
        }
    } else if s[i] == '$' {
        match body_at(name, s, i + 2, Seq::empty(), 0) {
            Err(e) => Err(e),
            Ok((parts, end)) => {
                let inner = TemplateView {
                    parts,
                    offset: offset_of(s, i),
                    len: length_of(s, i, end),
                    source_name: name,
                };
                Ok((TemplateView { parts: seq![PartView::Cmd(inner)], ..inner }, end))
            },
        }
    } else {
        let close = until(s, i + 2, closing_paren());
        if close >= s.len() {
            Err("unterminated template"@)
        } else if close == i + 2 {
            Err("empty variable name in template"@)
        } else {
            Ok(
                (
                    TemplateView {
                        parts: seq![PartView::Var(s.subrange(i + 2, close))],
                        offset: offset_of(s, i),
                        len: length_of(s, i, close + 1),
                        source_name: name,
                    },
                    close + 1,
                ),
            )
        }
    }
}

/// Whether a template starts at position `i`.
pub open spec fn starts_template(s: Seq<char>, i: int) -> bool {
    ||| s[i] == '('
    ||| (s[i] == '$' || s[i] == '@') && i + 1 < s.len() && s[i + 1] == '('
}

/// The token that starts at position `i`, and the position after it.
pub open spec fn token_at(name: Seq<char>, s: Seq<char>, i: int) -> (TypeView, int) {
    if i >= s.len() {
        (TypeView::Eof, i)
    } else if s[i] == '{' {
        (TypeView::LBrace, i + 1)
    } else if s[i] == '}' {
        (TypeView::RBrace, i + 1)
    } else if s[i] == '[' {
        (TypeView::LBracket, i + 1)
    } else if s[i] == ']' {
        (TypeView::RBracket, i + 1)
    } else if s[i] == ';' {
        (TypeView::Semicolon, i + 1)
    } else if s[i] == '=' {
        if i + 1 < s.len() && s[i + 1] == '>' {
            (TypeView::Arrow, i + 2)
        } else {
            (TypeView::Assign, i + 1)
        }
    } else if s[i] == ':' && i + 1 < s.len() && s[i + 1] == ':' {
        (TypeView::NamespaceSep, i + 2)
    } else if starts_template(s, i) {
        match template_at(name, s, i) {
            Ok((t, end)) => (TypeView::Template(t), end),
            Err(msg) => (TypeView::Illegal(msg), s.len() as int),
        }
    } else if is_letter(s[i]) || s[i] == '_' {
        let end = until(s, i, not_word());
        (word_type(s.subrange(i, end)), end)
    } else {
        (TypeView::Illegal("unexpected character: "@.push(s[i])), i + 1)
    }
}

proof fn lemma_body_at(name: Seq<char>, s: Seq<char>, i: int, text: Seq<char>, depth: nat)
    requires
        0 <= i <= s.len(),
    ensures
        body_at(name, s, i, text, depth) matches Ok((_, end)) ==> i < end <= s.len(),
    decreases s.len() - i,
{
    if i < s.len() {
        if s[i] == '@' && i + 1 < s.len() && s[i + 1] == '(' {
            let close = until(s, i + 2, closing_paren());
            lemma_until(s, i + 2, closing_paren());
            if close < s.len() {
                lemma_body_at(name, s, close + 1, Seq::empty(), depth);
            }
        } else if s[i] == '$' && i + 1 < s.len() && s[i + 1] == '(' {
            lemma_body_at(name, s, i + 2, Seq::empty(), 0);
            if let Ok((_, end)) = body_at(name, s, i + 2, Seq::empty(), 0) {
                lemma_body_at(name, s, end, Seq::empty(), depth);
            }
        } else if s[i] == '(' {
            lemma_body_at(name, s, i + 1, text.push(s[i]), depth + 1);
        } else if s[i] == ')' {
            if depth > 0 {
                lemma_body_at(name, s, i + 1, text.push(s[i]), (depth - 1) as nat);
            }
        } else {
            lemma_body_at(name, s, i + 1, text.push(s[i]), depth);
        }
    }
}

/// A token ends after it starts, and no later than the text, or else is the end.
pub proof fn lemma_token_at(name: Seq<char>, s: Seq<char>, i: int)
    requires
        0 <= i <= s.len(),
    ensures
        i <= token_at(name, s, i).1 <= s.len(),
        !(token_at(name, s, i).0 is Eof) ==> i < token_at(name, s, i).1,
{
    if i < s.len() {
        lemma_until(s, i + 1, not_word());
        if starts_template(s, i) {
            if s[i] == '(' {
                lemma_body_at(name, s, i + 1, Seq::empty(), 0);
            } else {
                lemma_body_at(name, s, i + 2, Seq::empty(), 0);
                lemma_until(s, i + 2, closing_paren());
            }
        }
    }
}

/// The next token from position `i` on, with its place, and the position after it.
pub open spec fn next_at(name: Seq<char>, s: Seq<char>, i: int) -> (TokenView, int) {
    let start = token_start(s, i);
    let (ty, end) = token_at(name, s, start);
    (TokenView { ty, offset: offset_of(s, start), len: length_of(s, start, end) }, end)
}

/// The tokens from position `i` on, up to the end.
pub open spec fn tokens_from(name: Seq<char>, s: Seq<char>, i: int) -> Seq<TokenView>
    decreases s.len() - i,
    via tokens_from_decreases
{
    if 0 <= i <= s.len() {
        let (tok, end) = next_at(name, s, i);
        if tok.ty is Eof {
            Seq::empty()
        } else {
            seq![tok] + tokens_from(name, s, end)
        }
    } else {
        Seq::empty()
    }
}

#[via_fn]
proof fn tokens_from_decreases(name: Seq<char>, s: Seq<char>, i: int) {
    if 0 <= i <= s.len() {
        lemma_token_start(s, i);
        lemma_token_at(name, s, token_start(s, i));
    }
}

/// The token at the end of a text.
pub open spec fn eof_token(s: Seq<char>) -> TokenView {
    TokenView { ty: TypeView::Eof, offset: byte_len(s) as usize, len: 0 }
}

// ── Cutting ──────────────────────────────────────────────────────────────────

/// A text as characters, with the offset of each in bytes.
struct Text {
    chars: Vec<char>,
    offsets: Vec<usize>,
    name: String,
}

impl Text {
    spec fn wf(&self) -> bool {
        &&& self.offsets@.len() == self.chars@.len() + 1
        &&& byte_len(self.chars@) <= usize::MAX
        &&& forall|k: int|
            0 <= k <= self.chars@.len() ==> (#[trigger] self.offsets@[k]) == byte_len(
                self.chars@.take(k),
            )
    }

    fn new(source: &str, name: &str) -> (r: Self)
        ensures
            r.wf(),
            r.chars@ == source@,
            r.name@ == name@,
    {
        let total = byte_count(source);
        let chars = chars_of(source);
        let mut offsets: Vec<usize> = Vec::new();
        offsets.push(0);
        let mut at: usize = 0;
        let mut i: usize = 0;
        assert(source@.take(0) =~= Seq::<char>::empty());
        while i < chars.len()
            invariant
                chars@ == source@,
                total == byte_len(source@),
                i <= chars@.len(),
                at == byte_len(source@.take(i as int)),
                offsets@.len() == i + 1,
                forall|k: int|
                    0 <= k <= i ==> (#[trigger] offsets@[k]) == byte_len(source@.take(k)),
            decreases chars@.len() - i,
        {
            proof {
                lemma_byte_len_next(source@, i as int);
            }
            at = at + chars[i].len_utf8();
            offsets.push(at);
            i += 1;
        }
        Text { chars, offsets, name: name.to_owned() }
    }

    /// The bytes before a position.
    fn offset(&self, i: usize) -> (r: usize)
        requires
            self.wf(),
            i <= self.chars@.len(),
        ensures
            r == offset_of(self.chars@, i as int),
    {
        self.offsets[i]
    }

    /// The bytes between two positions.
    fn length(&self, i: usize, j: usize) -> (r: usize)
        requires
            self.wf(),
            i <= j <= self.chars@.len(),
        ensures
            r == length_of(self.chars@, i as int, j as int),
    {
        proof {
            let s = self.chars@;
            assert(s.take(i as int) + s.subrange(i as int, j as int) =~= s.take(j as int));
            lemma_byte_len_join(s.take(i as int), s.subrange(i as int, j as int));
        }
        self.offsets[j] - self.offsets[i]
    }

    fn at(&self, i: usize, c: char) -> (r: bool)
        ensures
            r == (i < self.chars@.len() && self.chars@[i as int] == c),
    {
        i < self.chars.len() && self.chars[i] == c
    }

    /// The position of the next closing parenthesis, or the end.
    fn find_close(&self, from: usize) -> (r: usize)
        requires
            from <= self.chars@.len(),
        ensures
            r == until(self.chars@, from as int, closing_paren()),
            from <= r <= self.chars@.len(),
    {
        let ghost s = self.chars@;
        let mut j: usize = from;
        while j < self.chars.len() && self.chars[j] != ')'
            invariant
                s == self.chars@,
                from <= j <= s.len(),
                until(s, from as int, closing_paren()) == until(s, j as int, closing_paren()),
            decreases s.len() - j,
        {
            j += 1;
        }
        j
    }

    /// The name of a variable between parentheses, and the position after it.
    fn read_var(&self, from: usize) -> (r: Result<(String, usize), String>)
        requires
            from <= self.chars@.len(),
        ensures
            ({
                let s = self.chars@;
                let close = until(s, from as int, closing_paren());
                match r {
                    Ok(p) => from < close < s.len() && p.1 == close + 1 && p.0@ == s.subrange(
                        from as int,
                        close,
                    ),
                    Err(e) => (close >= s.len() && e@ == "unterminated template"@) || (close
                        == from && close < s.len() && e@ == "empty variable name in template"@),
                }
            }),
    {
        let close = self.find_close(from);
        if close >= self.chars.len() {
            return Err("unterminated template".to_owned());
        }
        if close == from {
            return Err("empty variable name in template".to_owned());
        }
        Ok((text_of(&self.chars, from, close), close + 1))
    }

    /// The pieces of a template, up to its closing parenthesis, and the position
    /// after that.
    fn read_body(&self, from: usize) -> (r: Result<(Vec<Part>, usize), String>)
        requires
            self.wf(),
            from <= self.chars@.len(),
        ensures
            body_at(self.name@, self.chars@, from as int, Seq::empty(), 0) == match r {
                Ok(p) => Ok::<(Seq<PartView>, int), Seq<char>>((part_views(p.0@), p.1 as int)),
                Err(e) => Err(e@),
            },
            r matches Ok(p) ==> from < p.1 <= self.chars@.len(),
        decreases self.chars@.len() - from,
    {
        let ghost s = self.chars@;
        let ghost name = self.name@;
        let ghost whole = body_at(name, s, from as int, Seq::empty(), 0);
        let mut parts: Vec<Part> = Vec::new();
        let mut text = String::new();
        let mut depth: usize = 0;
        let mut i: usize = from;
        proof {
            assert(text@ =~= Seq::<char>::empty());
            if let Ok((more, end)) = whole {
                assert(part_views(parts@) + more =~= more);
            }
        }
        while i < self.chars.len()
            invariant
                self.wf(),
                s == self.chars@,
                name == self.name@,
                whole == body_at(self.name@, self.chars@, from as int, Seq::empty(), 0),
                from <= i <= s.len(),
                depth <= i - from,
                whole == match body_at(name, s, i as int, text@, depth as nat) {
                    Ok((more, end)) => Ok::<(Seq<PartView>, int), Seq<char>>(
                        (part_views(parts@) + more, end),
                    ),
                    Err(e) => Err(e),
                },
            decreases s.len() - i,
        {
            let c = self.chars[i];
            let ghost at = i as int;
            let ghost done = part_views(parts@);
            let ghost lit = text@;
            if c == '@' && self.chars.len() - i > 1 && self.chars[i + 1] == '(' {
                match self.read_var(i + 2) {
                    Err(e) => {
                        return Err(e);
                    },
                    Ok((var, next)) => {
                        push_literal(&mut parts, text);
                        parts.push(Part::Var(var));
                        text = String::new();
                        i = next;
                        proof {
                            assert(text@ =~= Seq::<char>::empty());
                            assert(part_views(parts@) =~= done + literal(lit) + seq![
                                PartView::Var(var@),
                            ]);
                            if let Ok((more, end)) = body_at(
                                name,
                                s,
                                i as int,
                                Seq::empty(),
                                depth as nat,
                            ) {
                                assert(done + (literal(lit) + seq![PartView::Var(var@)] + more)
                                    =~= part_views(parts@) + more);
                            }
                        }
                    },
                }
            } else if c == '$' && self.chars.len() - i > 1 && self.chars[i + 1] == '(' {
                match self.read_body(i + 2) {
                    Err(e) => {
                        return Err(e);
                    },
                    Ok((inner, next)) => {
                        let cmd = Part::Cmd(
                            Template {
                                parts: inner,
                                offset: self.offset(i),
                                len: self.length(i, next),
                                source_name: self.name.clone(),
                            },
                        );
                        let ghost cmdv = cmd@;
                        assert(cmdv->Cmd_0.parts =~= part_views(inner@));
                        push_literal(&mut parts, text);
                        parts.push(cmd);
                        text = String::new();
                        i = next;
                        proof {
                            assert(text@ =~= Seq::<char>::empty());
                            assert(part_views(parts@) =~= done + literal(lit) + seq![cmdv]);
                            if let Ok((more, end)) = body_at(
                                name,
                                s,
                                i as int,
                                Seq::empty(),
                                depth as nat,
                            ) {
                                assert(done + (literal(lit) + seq![cmdv] + more) =~= part_views(
                                    parts@,
                                ) + more);
                            }
                        }
                    },
                }
            } else if c == '(' {
                text.push(c);
                depth += 1;
                i += 1;
            } else if c == ')' {
                if depth == 0 {
                    push_literal(&mut parts, text);
                    return Ok((parts, i + 1));
                }
                text.push(c);
                depth -= 1;
                i += 1;
            } else {
                text.push(c);
                i += 1;
            }
        }
        Err("unterminated template".to_owned())
    }

    /// The template that starts at a position, and the position after it.
    fn read_template(&self, from: usize) -> (r: Result<(Template, usize), String>)
        requires
            self.wf(),
            from < self.chars@.len(),
            starts_template(self.chars@, from as int),
        ensures
            template_at(self.name@, self.chars@, from as int) == match r {
                Ok(p) => Ok::<(TemplateView, int), Seq<char>>((p.0@, p.1 as int)),
                Err(e) => Err(e@),
            },
            r matches Ok(p) ==> from < p.1 <= self.chars@.len(),
    {
        let total: usize = self.chars.len();
        assert(from < total);
        let c = self.chars[from];
        if c == '(' {
            return match self.read_body(from + 1) {
                Err(e) => Err(e),
                Ok((parts, end)) => {
                    let t = Template {
                        parts,
                        offset: self.offset(from),
                        len: self.length(from, end),
                        source_name: self.name.clone(),
                    };
                    assert(t@.parts =~= part_views(parts@));
                    Ok((t, end))
                },
            };
        }
        if c == '$' {
            return match self.read_body(from + 2) {
                Err(e) => Err(e),
                Ok((parts, end)) => {
                    let inner = Template {
                        parts,
                        offset: self.offset(from),
                        len: self.length(from, end),
                        source_name: self.name.clone(),
                    };
                    let ghost iv = inner@;
                    assert(iv.parts =~= part_views(parts@));
                    let mut outer: Vec<Part> = Vec::new();
                    outer.push(Part::Cmd(inner));
                    let t = Template {
                        parts: outer,
                        offset: self.offset(from),
                        len: self.length(from, end),
                        source_name: self.name.clone(),
                    };
                    assert(t@.parts =~= seq![PartView::Cmd(iv)]);
                    Ok((t, end))
                },
            };
        }
        match self.read_var(from + 2) {
            Err(e) => Err(e),
            Ok((var, end)) => {
                let mut parts: Vec<Part> = Vec::new();
                parts.push(Part::Var(var));
                let t = Template {
                    parts,
                    offset: self.offset(from),
                    len: self.length(from, end),
                    source_name: self.name.clone(),
                };
                assert(t@.parts =~= seq![PartView::Var(var@)]);
                Ok((t, end))
            },
        }
    }

    /// The position at which the next token starts.
    fn skip_blank(&self, from: usize) -> (r: usize)
        requires
            from <= self.chars@.len(),
        ensures
            r == token_start(self.chars@, from as int),
            from <= r <= self.chars@.len(),
    {
        let ghost s = self.chars@;
        let mut i: usize = from;
        loop
            invariant
                s == self.chars@,
                from <= i <= s.len(),
                token_start(s, from as int) == token_start(s, i as int),
            decreases s.len() - i,
        {
            let start: usize = i;
            while i < self.chars.len() && self.chars[i].is_whitespace()
                invariant
                    s == self.chars@,
                    start <= i <= s.len(),
                    until(s, start as int, not_white()) == until(s, i as int, not_white()),
                decreases s.len() - i,
            {
                i += 1;
            }
            if !self.at(i, '#') {
                return i;
            }
            let hash: usize = i;
            while i < self.chars.len() && self.chars[i] != '\n'
                invariant
                    s == self.chars@,
                    hash <= i <= s.len(),
                    hash < s.len(),
                    s[hash as int] == '#',
                    until(s, hash as int, line_end()) == until(s, i as int, line_end()),
                decreases s.len() - i,
            {
                i += 1;
            }
            proof {
                lemma_until(s, hash + 1, line_end());
            }
        }
    }

    /// The token that starts at a position, and the position after it.
    fn read_token(&self, from: usize) -> (r: (TokenType, usize))
        requires
            self.wf(),
            from <= self.chars@.len(),
        ensures
            token_at(self.name@, self.chars@, from as int) == (r.0@, r.1 as int),
            from <= r.1 <= self.chars@.len(),
    {
        let ghost s = self.chars@;
        if from >= self.chars.len() {
            return (TokenType::Eof, from);
        }
        let c = self.chars[from];
        match c {
            '{' => (TokenType::LBrace, from + 1),
            '}' => (TokenType::RBrace, from + 1),
            '[' => (TokenType::LBracket, from + 1),
            ']' => (TokenType::RBracket, from + 1),
            ';' => (TokenType::Semicolon, from + 1),
            '=' => {
                if self.at(from + 1, '>') {
                    (TokenType::Arrow, from + 2)
                } else {
                    (TokenType::Assign, from + 1)
                }
            },
            _ => {
                if c == ':' && self.at(from + 1, ':') {
                    return (TokenType::NamespaceSep, from + 2);
                }
                if c == '(' || ((c == '$' || c == '@') && self.at(from + 1, '(')) {
                    return match self.read_template(from) {
                        Ok((t, end)) => (TokenType::Template(t), end),
                        Err(msg) => (TokenType::Illegal(msg), self.chars.len()),
                    };
                }
                if c.is_alphabetic() || c == '_' {
                    let mut end: usize = from;
                    while end < self.chars.len() && (self.chars[end].is_alphanumeric()
                        || self.chars[end] == '_')
                        invariant
                            s == self.chars@,
                            from <= end <= s.len(),
                            until(s, from as int, not_word()) == until(
                                s,
                                end as int,
                                not_word(),
                            ),
                        decreases s.len() - end,
                    {
                        end += 1;
                    }
                    let word = text_of(&self.chars, from, end);
                    return (lookup_word(word.as_str()), end);
                }
                let mut msg = "unexpected character: ".to_owned();
                msg.push(c);
                (TokenType::Illegal(msg), from + 1)
            },
        }
    }
}

fn push_literal(parts: &mut Vec<Part>, text: String)
    ensures
        part_views(final(parts)@) == part_views(old(parts)@) + literal(text@),
{
    let ghost before = part_views(parts@);
    if !text.as_str().is_empty() {
        parts.push(Part::Lit(text));
    }
    assert(part_views(parts@) =~= before + literal(text@));
}

/// Cut a text into tokens. The last one is the end.
pub fn tokenize(source: &str, name: &str) -> (r: Vec<Token>)
    ensures
        r@.len() > 0,
        r@[r@.len() - 1]@ == eof_token(source@),
        token_seq(r@.take(r@.len() - 1)) == tokens_from(name@, source@, 0),
{
    let text = Text::new(source, name);
    let ghost s = source@;
    let mut out: Vec<Token> = Vec::new();
    let mut i: usize = 0;
    proof {
        assert(token_seq(out@) + tokens_from(name@, s, 0) =~= tokens_from(name@, s, 0));
    }
    loop
        invariant_except_break
            text.wf(),
            text.chars@ == s,
            text.name@ == name@,
            i <= s.len(),
            tokens_from(name@, s, 0) == token_seq(out@) + tokens_from(name@, s, i as int),
        ensures
            text.wf(),
            text.chars@ == s,
            tokens_from(name@, s, 0) == token_seq(out@),
        decreases s.len() - i,
    {
        let start = text.skip_blank(i);
        let (ty, end) = text.read_token(start);
        proof {
            lemma_token_at(name@, s, start as int);
        }
        if let TokenType::Eof = &ty {
            assert(token_seq(out@) + Seq::<TokenView>::empty() =~= token_seq(out@));
            break;
        }
        let ghost done = token_seq(out@);
        let ghost tv = TokenView {
            ty: ty@,
            offset: offset_of(s, start as int),
            len: length_of(s, start as int, end as int),
        };
        out.push(Token { ty, offset: text.offset(start), len: text.length(start, end) });
        proof {
            assert(token_seq(out@) =~= done.push(tv));
            let more = tokens_from(name@, s, end as int);
            assert(done + (seq![tv] + more) =~= token_seq(out@) + more);
        }
        i = end;
    }
    let total = text.chars.len();
    let ghost done = out@;
    out.push(Token { ty: TokenType::Eof, offset: text.offset(total), len: 0 });
    proof {
        assert(s.take(total as int) =~= s);
        assert(out@.take(out@.len() - 1) =~= done);
    }
    out
}

} // verus!
