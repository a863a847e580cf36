//! The tokens of the language.
use vstd::prelude::*;
use crate::text::same;

verus! {

broadcast use vstd::string::group_string_axioms;

/// What a token is.
#[derive(Debug, PartialEq)]
pub enum TokenType {
    Eof,
    Illegal(String),
    Ident(String),
    Backtick(String),
    PathLit(String),
    LBrace,
    RBrace,
    LBracket,
    RBracket,
    LParen,
    RParen,
    Comma,
    Semicolon,
    Assign,
    Dollar,
    Arrow,
    NamespaceSep,
    Sanctuary,
    Import,
    Var,
    StringKw,
    Pr,
    Fn,
    Run,
    SeqKw,
    ParKw,
    Env,
    Log,
    Exec,
    Cd,
    Shell,
    Case,
    Use,
}

/// What a token is, by its contents.
pub enum TypeView {
    Eof,
    Illegal(Seq<char>),
    Ident(Seq<char>),
    Backtick(Seq<char>),
    PathLit(Seq<char>),
    LBrace,
    RBrace,
    LBracket,
    RBracket,
    LParen,
    RParen,
    Comma,
    Semicolon,
    Assign,
    Dollar,
    Arrow,
    NamespaceSep,
    Sanctuary,
    Import,
    Var,
    StringKw,
    Pr,
    Fn,
    Run,
    SeqKw,
    ParKw,
    Env,
    Log,
    Exec,
    Cd,
    Shell,
    Case,
    Use,
}

impl TokenType {
    pub open spec fn view(&self) -> TypeView {
        match self {
            TokenType::Eof => TypeView::Eof,
            TokenType::Illegal(s) => TypeView::Illegal(s@),
            TokenType::Ident(s) => TypeView::Ident(s@),
            TokenType::Backtick(s) => TypeView::Backtick(s@),
            TokenType::PathLit(s) => TypeView::PathLit(s@),
            TokenType::LBrace => TypeView::LBrace,
            TokenType::RBrace => TypeView::RBrace,
            TokenType::LBracket => TypeView::LBracket,
            TokenType::RBracket => TypeView::RBracket,
            TokenType::LParen => TypeView::LParen,
            TokenType::RParen => TypeView::RParen,
            TokenType::Comma => TypeView::Comma,
            TokenType::Semicolon => TypeView::Semicolon,
            TokenType::Assign => TypeView::Assign,
            TokenType::Dollar => TypeView::Dollar,
            TokenType::Arrow => TypeView::Arrow,
            TokenType::NamespaceSep => TypeView::NamespaceSep,
            TokenType::Sanctuary => TypeView::Sanctuary,
            TokenType::Import => TypeView::Import,
            TokenType::Var => TypeView::Var,
            TokenType::StringKw => TypeView::StringKw,
            TokenType::Pr => TypeView::Pr,
            TokenType::Fn => TypeView::Fn,
            TokenType::Run => TypeView::Run,
            TokenType::SeqKw => TypeView::SeqKw,
            TokenType::ParKw => TypeView::ParKw,
            TokenType::Env => TypeView::Env,
            TokenType::Log => TypeView::Log,
            TokenType::Exec => TypeView::Exec,
            TokenType::Cd => TypeView::Cd,
            TokenType::Shell => TypeView::Shell,
            TokenType::Case => TypeView::Case,
            TokenType::Use => TypeView::Use,
        }
    }

    /// The same token type once more.
    pub fn duplicate(&self) -> (r: Self)
        ensures
            r@ == self@,
    {
        match self {
            TokenType::Eof => TokenType::Eof,
            TokenType::Illegal(s) => TokenType::Illegal(s.clone()),
            TokenType::Ident(s) => TokenType::Ident(s.clone()),
            TokenType::Backtick(s) => TokenType::Backtick(s.clone()),
            TokenType::PathLit(s) => TokenType::PathLit(s.clone()),
            TokenType::LBrace => TokenType::LBrace,
            TokenType::RBrace => TokenType::RBrace,
            TokenType::LBracket => TokenType::LBracket,
            TokenType::RBracket => TokenType::RBracket,
            TokenType::LParen => TokenType::LParen,
            TokenType::RParen => TokenType::RParen,
            TokenType::Comma => TokenType::Comma,
            TokenType::Semicolon => TokenType::Semicolon,
            TokenType::Assign => TokenType::Assign,
            TokenType::Dollar => TokenType::Dollar,
            TokenType::Arrow => TokenType::Arrow,
            TokenType::NamespaceSep => TokenType::NamespaceSep,
            TokenType::Sanctuary => TokenType::Sanctuary,
            TokenType::Import => TokenType::Import,
            TokenType::Var => TokenType::Var,
            TokenType::StringKw => TokenType::StringKw,
            TokenType::Pr => TokenType::Pr,
            TokenType::Fn => TokenType::Fn,
            TokenType::Run => TokenType::Run,
            TokenType::SeqKw => TokenType::SeqKw,
            TokenType::ParKw => TokenType::ParKw,
            TokenType::Env => TokenType::Env,
            TokenType::Log => TokenType::Log,
            TokenType::Exec => TokenType::Exec,
            TokenType::Cd => TokenType::Cd,
            TokenType::Shell => TokenType::Shell,
            TokenType::Case => TokenType::Case,
            TokenType::Use => TokenType::Use,
        }
    }
}

/// A token and where it stands: line and column count from 1, offset and
/// length count bytes.
#[derive(Debug, PartialEq)]
pub struct Token {
    pub ty: TokenType,
    pub line: usize,
    pub col: usize,
    pub offset: usize,
    pub len: usize,
}

/// A token, by its contents.
pub struct TokenView {
    pub ty: TypeView,
    pub line: usize,
    pub col: usize,
    pub offset: usize,
    pub len: usize,
}

impl Token {
    pub open spec fn view(&self) -> TokenView {
        TokenView {
            ty: self.ty@,
            line: self.line,
            col: self.col,
            offset: self.offset,
            len: self.len,
        }
    }

    /// A token at a place.
    pub fn new(ty: TokenType, line: usize, col: usize, offset: usize, len: usize) -> (r: Self)
        ensures
            r@ == (TokenView { ty: ty@, line, col, offset, len }),
    {
        Token { ty, line, col, offset, len }
    }

    /// The same token once more.
    pub fn duplicate(&self) -> (r: Self)
        ensures
            r@ == self@,
    {
        Token {
            ty: self.ty.duplicate(),
            line: self.line,
            col: self.col,
            offset: self.offset,
            len: self.len,
        }
    }
}

/// The keyword that a word is, or the identifier.
pub open spec fn word_type(s: Seq<char>) -> TypeView {
    if s == "sanctuary"@ {
        TypeView::Sanctuary
    } else if s == "import"@ {
        TypeView::Import
    } else if s == "var"@ {
        TypeView::Var
    } else if s == "string"@ {
        TypeView::StringKw
    } else if s == "pr"@ {
        TypeView::Pr
    } else if s == "fn"@ {
        TypeView::Fn
    } else if s == "run"@ {
        TypeView::Run
    } else if s == "seq"@ {
        TypeView::SeqKw
    } else if s == "par"@ {
        TypeView::ParKw
    } else if s == "env"@ {
        TypeView::Env
    } else if s == "log"@ {
        TypeView::Log
    } else if s == "exec"@ {
        TypeView::Exec
    } else if s == "cd"@ {
        TypeView::Cd
    } else if s == "shell"@ {
        TypeView::Shell
    } else if s == "case"@ {
        TypeView::Case
    } else if s == "use"@ {
        TypeView::Use
    } else {
        TypeView::Ident(s)
    }
}

/// The token type of a word: a keyword, or else an identifier.
pub fn lookup_ident(ident: &str) -> (r: TokenType)
    ensures
        r@ == word_type(ident@),
{
    if same(ident, "sanctuary") {
        TokenType::Sanctuary
    } else if same(ident, "import") {
        TokenType::Import
    } else if same(ident, "var") {
        TokenType::Var
    } else if same(ident, "string") {
        TokenType::StringKw
    } else if same(ident, "pr") {
        TokenType::Pr
    } else if same(ident, "fn") {
        TokenType::Fn
    } else if same(ident, "run") {
        TokenType::Run
    } else if same(ident, "seq") {
        TokenType::SeqKw
    } else if same(ident, "par") {
        TokenType::ParKw
    } else if same(ident, "env") {
        TokenType::Env
    } else if same(ident, "log") {
        TokenType::Log
    } else if same(ident, "exec") {
        TokenType::Exec
    } else if same(ident, "cd") {
        TokenType::Cd
    } else if same(ident, "shell") {
        TokenType::Shell
    } else if same(ident, "case") {
        TokenType::Case
    } else if same(ident, "use") {
        TokenType::Use
    } else {
        TokenType::Ident(ident.to_owned())
    }
}

/// How a token type is called in messages. A keyword is called by its word.
pub open spec fn type_title(ty: TypeView) -> Seq<char> {
    match ty {
        TypeView::Eof => "end of file"@,
        TypeView::Illegal(_) => "illegal token"@,
        TypeView::Ident(_) => "identifier"@,
        TypeView::Backtick(_) => "backtick string"@,
        TypeView::PathLit(_) => "path literal"@,
        TypeView::LBrace => "`{`"@,
        TypeView::RBrace => "`}`"@,
        TypeView::LBracket => "`[`"@,
        TypeView::RBracket => "`]`"@,
        TypeView::LParen => "`(`"@,
        TypeView::RParen => "`)`"@,
        TypeView::Comma => "`,`"@,
        TypeView::Semicolon => "`;`"@,
        TypeView::Assign => "`=`"@,
        TypeView::Dollar => "`$`"@,
        TypeView::Arrow => "`=>`"@,
        TypeView::NamespaceSep => "`::`"@,
        TypeView::Sanctuary => "`sanctuary`"@,
        TypeView::Import => "`import`"@,
        TypeView::Var => "`var`"@,
        TypeView::StringKw => "`string`"@,
        TypeView::Pr => "`pr`"@,
        TypeView::Fn => "`fn`"@,
        TypeView::Run => "`run`"@,
        TypeView::SeqKw => "`seq`"@,
        TypeView::ParKw => "`par`"@,
        TypeView::Env => "`env`"@,
        TypeView::Log => "`log`"@,
        TypeView::Exec => "`exec`"@,
        TypeView::Cd => "`cd`"@,
        TypeView::Shell => "`shell`"@,
        TypeView::Case => "`case`"@,
        TypeView::Use => "`use`"@,
    }
}

/// The name of a token type for messages.
pub fn format_token_type(ty: &TokenType) -> (r: String)
    ensures
        r@ == type_title(ty@),
{
    match ty {
        TokenType::Eof => "end of file".to_owned(),
        TokenType::Illegal(_) => "illegal token".to_owned(),
        TokenType::Ident(_) => "identifier".to_owned(),
        TokenType::Backtick(_) => "backtick string".to_owned(),
        TokenType::PathLit(_) => "path literal".to_owned(),
        TokenType::LBrace => "`{`".to_owned(),
        TokenType::RBrace => "`}`".to_owned(),
        TokenType::LBracket => "`[`".to_owned(),
        TokenType::RBracket => "`]`".to_owned(),
        TokenType::LParen => "`(`".to_owned(),
        TokenType::RParen => "`)`".to_owned(),
        TokenType::Comma => "`,`".to_owned(),
        TokenType::Semicolon => "`;`".to_owned(),
        TokenType::Assign => "`=`".to_owned(),
        TokenType::Dollar => "`$`".to_owned(),
        TokenType::Arrow => "`=>`".to_owned(),
        TokenType::NamespaceSep => "`::`".to_owned(),
        TokenType::Sanctuary => "`sanctuary`".to_owned(),
        TokenType::Import => "`import`".to_owned(),
        TokenType::Var => "`var`".to_owned(),
        TokenType::StringKw => "`string`".to_owned(),
        TokenType::Pr => "`pr`".to_owned(),
        TokenType::Fn => "`fn`".to_owned(),
        TokenType::Run => "`run`".to_owned(),
        TokenType::SeqKw => "`seq`".to_owned(),
        TokenType::ParKw => "`par`".to_owned(),
        TokenType::Env => "`env`".to_owned(),
        TokenType::Log => "`log`".to_owned(),
        TokenType::Exec => "`exec`".to_owned(),
        TokenType::Cd => "`cd`".to_owned(),
        TokenType::Shell => "`shell`".to_owned(),
        TokenType::Case => "`case`".to_owned(),
        TokenType::Use => "`use`".to_owned(),
    }
}

/// How a token is called in messages: by its text where it has one.
pub open spec fn token_name(ty: TypeView) -> Seq<char> {
    match ty {
        TypeView::Ident(s) => "`"@ + s + "`"@,
        TypeView::Backtick(s) => "`"@ + s + "`"@,
        TypeView::Illegal(s) => "`"@ + s + "`"@,
        _ => type_title(ty),
    }
}

fn in_quotes(s: &str) -> (r: String)
    ensures
        r@ == "`"@ + s@ + "`"@,
{
    let mut r = "`".to_owned();
    r.push_str(s);
    r.push_str("`");
    r
}

/// The name of a token for messages.
pub fn format_token(token: &Token) -> (r: String)
    ensures
        r@ == token_name(token.ty@),
{
    match &token.ty {
        TokenType::Ident(s) => in_quotes(s.as_str()),
        TokenType::Backtick(s) => in_quotes(s.as_str()),
        TokenType::Illegal(s) => in_quotes(s.as_str()),
        other => format_token_type(other),
    }
}

/// Whether a token type is a keyword.
pub open spec fn is_keyword(ty: TypeView) -> bool {
    match ty {
        TypeView::Sanctuary => true,
        TypeView::Import => true,
        TypeView::Var => true,
        TypeView::StringKw => true,
        TypeView::Pr => true,
        TypeView::Fn => true,
        TypeView::Run => true,
        TypeView::SeqKw => true,
        TypeView::ParKw => true,
        TypeView::Env => true,
        TypeView::Log => true,
        TypeView::Exec => true,
        TypeView::Cd => true,
        TypeView::Shell => true,
        TypeView::Case => true,
        TypeView::Use => true,
        _ => false,
    }
}

/// Whether a token type is a keyword.
pub fn is_keyword_token(ty: &TokenType) -> (r: bool)
    ensures
        r == is_keyword(ty@),
{
    match ty {
        TokenType::Sanctuary => true,
        TokenType::Import => true,
        TokenType::Var => true,
        TokenType::StringKw => true,
        TokenType::Pr => true,
        TokenType::Fn => true,
        TokenType::Run => true,
        TokenType::SeqKw => true,
        TokenType::ParKw => true,
        TokenType::Env => true,
        TokenType::Log => true,
        TokenType::Exec => true,
        TokenType::Cd => true,
        TokenType::Shell => true,
        TokenType::Case => true,
        TokenType::Use => true,
        _ => false,
    }
}

/// A word is a keyword or an identifier; a keyword is called by its word in
/// quotes, and an identifier holds the word.
pub proof fn law_words(s: Seq<char>)
    ensures
        is_keyword(word_type(s)) || word_type(s) == TypeView::Ident(s),
        is_keyword(word_type(s)) ==> type_title(word_type(s)) == "`"@ + s + "`"@,
        token_name(word_type(s)) == "`"@ + s + "`"@,
{
    reveal_strlit("`");
    reveal_strlit("sanctuary");
    reveal_strlit("`sanctuary`");
    assert("`sanctuary`"@ =~= "`"@ + "sanctuary"@ + "`"@);
    reveal_strlit("import");
    reveal_strlit("`import`");
    assert("`import`"@ =~= "`"@ + "import"@ + "`"@);
    reveal_strlit("var");
    reveal_strlit("`var`");
    assert("`var`"@ =~= "`"@ + "var"@ + "`"@);
    reveal_strlit("string");
    reveal_strlit("`string`");
    assert("`string`"@ =~= "`"@ + "string"@ + "`"@);
    reveal_strlit("pr");
    reveal_strlit("`pr`");
    assert("`pr`"@ =~= "`"@ + "pr"@ + "`"@);
    reveal_strlit("fn");
    reveal_strlit("`fn`");
    assert("`fn`"@ =~= "`"@ + "fn"@ + "`"@);
    reveal_strlit("run");
    reveal_strlit("`run`");
    assert("`run`"@ =~= "`"@ + "run"@ + "`"@);
    reveal_strlit("seq");
    reveal_strlit("`seq`");
    assert("`seq`"@ =~= "`"@ + "seq"@ + "`"@);
    reveal_strlit("par");
    reveal_strlit("`par`");
    assert("`par`"@ =~= "`"@ + "par"@ + "`"@);
    reveal_strlit("env");
    reveal_strlit("`env`");
    assert("`env`"@ =~= "`"@ + "env"@ + "`"@);
    reveal_strlit("log");
    reveal_strlit("`log`");
    assert("`log`"@ =~= "`"@ + "log"@ + "`"@);
    reveal_strlit("exec");
    reveal_strlit("`exec`");
    assert("`exec`"@ =~= "`"@ + "exec"@ + "`"@);
    reveal_strlit("cd");
    reveal_strlit("`cd`");
    assert("`cd`"@ =~= "`"@ + "cd"@ + "`"@);
    reveal_strlit("shell");
    reveal_strlit("`shell`");
    assert("`shell`"@ =~= "`"@ + "shell"@ + "`"@);
    reveal_strlit("case");
    reveal_strlit("`case`");
    assert("`case`"@ =~= "`"@ + "case"@ + "`"@);
    reveal_strlit("use");
    reveal_strlit("`use`");
    assert("`use`"@ =~= "`"@ + "use"@ + "`"@);
}

} // verus!
