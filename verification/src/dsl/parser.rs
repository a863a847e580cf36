//! The parser: recursive descent over the tokens of a source.
use vstd::prelude::*;
use crate::dsl::ast::{top_level_views, Program, Stmt, StmtView, TopLevel, TopLevelView};
use crate::dsl::error::{ParseError, ParseErrorView, SourceSpan};
use crate::dsl::grammar::{
    cur, declaration, declared_name, error_here, expected, file, from_boundary, identifier, illegal,
    import_path, is_boundary, item, literal, no_statement, rest, span_here, Source,
};
use crate::dsl::lexer::{eof_from, tokens_from, Lexer};
use crate::dsl::syntax::{Expr, ExprView, InterpolationPart};
use crate::dsl::token::{
    format_token, format_token_type, is_keyword_token, token_name, type_title, Token, TokenType,
    TokenView,
};
use crate::text::same;

pub mod body;
pub mod chain;
pub mod decl;
pub mod expr;
pub mod project;

verus! {

broadcast use vstd::string::group_string_axioms;

/// A parser at work on a source.
pub struct Parser {
    tokens: Vec<Token>,
    pos: usize,
    source_len: usize,
    source_name: String,
}

pub open spec fn token_seq(s: Seq<Token>) -> Seq<TokenView> {
    Seq::new(s.len(), |i: int| s[i]@)
}

/// Whether two token types are the same.
pub fn same_type(a: &TokenType, b: &TokenType) -> (r: bool)
    ensures
        r == (a@ == b@),
{
    match (a, b) {
        (TokenType::Eof, TokenType::Eof) => true,
        (TokenType::Illegal(x), TokenType::Illegal(y)) => same(x.as_str(), y.as_str()),
        (TokenType::Ident(x), TokenType::Ident(y)) => same(x.as_str(), y.as_str()),
        (TokenType::Backtick(x), TokenType::Backtick(y)) => same(x.as_str(), y.as_str()),
        (TokenType::PathLit(x), TokenType::PathLit(y)) => same(x.as_str(), y.as_str()),
        (TokenType::LBrace, TokenType::LBrace) => true,
        (TokenType::RBrace, TokenType::RBrace) => true,
        (TokenType::LBracket, TokenType::LBracket) => true,
        (TokenType::RBracket, TokenType::RBracket) => true,
        (TokenType::LParen, TokenType::LParen) => true,
        (TokenType::RParen, TokenType::RParen) => true,
        (TokenType::Comma, TokenType::Comma) => true,
        (TokenType::Semicolon, TokenType::Semicolon) => true,
        (TokenType::Assign, TokenType::Assign) => true,
        (TokenType::Dollar, TokenType::Dollar) => true,
        (TokenType::Arrow, TokenType::Arrow) => true,
        (TokenType::NamespaceSep, TokenType::NamespaceSep) => true,
        (TokenType::Sanctuary, TokenType::Sanctuary) => true,
        (TokenType::Import, TokenType::Import) => true,
        (TokenType::Var, TokenType::Var) => true,
        (TokenType::StringKw, TokenType::StringKw) => true,
        (TokenType::Pr, TokenType::Pr) => true,
        (TokenType::Fn, TokenType::Fn) => true,
        (TokenType::Run, TokenType::Run) => true,
        (TokenType::SeqKw, TokenType::SeqKw) => true,
        (TokenType::ParKw, TokenType::ParKw) => true,
        (TokenType::Env, TokenType::Env) => true,
        (TokenType::Log, TokenType::Log) => true,
        (TokenType::Exec, TokenType::Exec) => true,
        (TokenType::Cd, TokenType::Cd) => true,
        (TokenType::Shell, TokenType::Shell) => true,
        (TokenType::Case, TokenType::Case) => true,
        (TokenType::Use, TokenType::Use) => true,
        _ => false,
    }
}

impl Parser {
    /// The source.
    pub closed spec fn source(&self) -> Source {
        Source {
            eof: self.tokens@[self.tokens@.len() - 1]@,
            len: self.source_len,
            name: self.source_name@,
        }
    }

    /// The tokens ahead, without the one at the end of the text.
    pub closed spec fn ahead(&self) -> Seq<TokenView> {
        token_seq(self.tokens@.subrange(self.pos as int, self.tokens@.len() - 1))
    }

    /// There is a token ahead, and the last one is the end.
    pub closed spec fn wf(&self) -> bool {
        &&& self.pos < self.tokens@.len()
        &&& self.tokens@[self.tokens@.len() - 1].ty@ is Eof
    }

    /// The parser has moved on over tokens of the same source, by one at least
    /// where `moved` is set.
    pub open spec fn follows(&self, before: &Parser, moved: bool) -> bool {
        &&& self.wf()
        &&& self.source() == before.source()
        &&& self.ahead().len() <= before.ahead().len()
        &&& self.ahead().len() == before.ahead().len() ==> self.ahead() == before.ahead()
        &&& moved ==> self.ahead().len() < before.ahead().len()
    }

    /// A parser for the tokens of a lexer.
    pub fn new(lexer: Lexer) -> (r: Self)
        requires
            lexer.wf(),
        ensures
            r.wf(),
            r.ahead() == tokens_from(lexer.source(), lexer.position()),
            r.source() == (Source {
                eof: eof_from(lexer.source(), lexer.position()),
                len: crate::text::byte_len(lexer.source()) as usize,
                name: ""@,
            }),
    {
        let mut lexer = lexer;
        let source_len = lexer.source_len();
        let ghost s = lexer.source();
        let ghost from = lexer.position();
        let mut tokens: Vec<Token> = Vec::new();
        proof {
            assert(token_seq(tokens@) + tokens_from(s, from) =~= tokens_from(s, from));
        }
        loop
            invariant_except_break
                lexer.wf(),
                lexer.source() == s,
                0 <= lexer.position() <= s.len(),
                tokens_from(s, from) == token_seq(tokens@) + tokens_from(s, lexer.position()),
                eof_from(s, from) == eof_from(s, lexer.position()),
            ensures
                tokens@.len() > 0,
                tokens@[tokens@.len() - 1].ty@ is Eof,
                tokens@[tokens@.len() - 1]@ == eof_from(s, from),
                token_seq(tokens@.subrange(0, tokens@.len() - 1)) == tokens_from(s, from),
            decreases s.len() - lexer.position(),
        {
            let ghost at = lexer.position();
            let ghost done = tokens@;
            let tok = lexer.next_token();
            let is_end = match tok.ty {
                TokenType::Eof => true,
                _ => false,
            };
            tokens.push(tok);
            proof {
                let last = tokens@.last()@;
                assert(token_seq(tokens@) =~= token_seq(done).push(last));
                if is_end {
                    assert(tokens@.subrange(0, tokens@.len() - 1) =~= done);
                    assert(token_seq(done) + Seq::<TokenView>::empty() =~= token_seq(done));
                } else {
                    let more = tokens_from(s, lexer.position());
                    assert(token_seq(done) + (seq![last] + more) =~= token_seq(tokens@) + more);
                }
            }
            if is_end {
                break;
            }
        }
        Parser { tokens, pos: 0, source_len, source_name: "".to_owned() }
    }

    /// A parser for a text.
    pub fn from_source(source: String) -> (r: Self)
        ensures
            r.wf(),
            r.ahead() == tokens_from(source@, 0),
            r.source() == (Source {
                eof: eof_from(source@, 0),
                len: crate::text::byte_len(source@) as usize,
                name: ""@,
            }),
    {
        Parser::new(Lexer::new(source))
    }

    /// The same parser, with the name of its source set.
    pub fn with_source_name(self, name: String) -> (r: Self)
        requires
            self.wf(),
        ensures
            r.wf(),
            r.ahead() == self.ahead(),
            r.source() == (Source { name: name@, ..self.source() }),
    {
        Parser { tokens: self.tokens, pos: self.pos, source_len: self.source_len, source_name: name }
    }

    /// The token ahead.
    pub fn current_token(&self) -> (r: &Token)
        requires
            self.wf(),
        ensures
            r@ == cur(self.source(), self.ahead()),
            !(r.ty@ is Eof) ==> self.ahead().len() > 0,
    {
        proof {
            let t = self.ahead();
            if t.len() > 0 {
                assert(t[0] == self.tokens@[self.pos as int]@);
            } else {
                assert(self.pos == self.tokens@.len() - 1);
            }
        }
        &self.tokens[self.pos]
    }

    /// The name of the source.
    pub(crate) fn name(&self) -> (r: String)
        ensures
            r@ == self.source().name,
    {
        self.source_name.clone()
    }

    /// Go on to the next token. The end stays.
    pub(crate) fn advance(&mut self)
        requires
            old(self).wf(),
        ensures
            final(self).wf(),
            final(self).source() == old(self).source(),
            final(self).ahead() == rest(old(self).ahead()),
    {
        let ghost t = self.ahead();
        if self.pos < self.tokens.len() - 1 {
            self.pos = self.pos + 1;
        }
        assert(self.ahead() =~= rest(t));
    }

    /// The place of the token ahead; at the end of the text, its last byte.
    pub(crate) fn eof_aware_span(&self) -> (r: SourceSpan)
        requires
            self.wf(),
        ensures
            r == span_here(self.source(), self.ahead()),
    {
        let tok = self.current_token();
        if tok.len == 0 && tok.offset >= self.source_len && self.source_len > 0 {
            return SourceSpan { offset: self.source_len - 1, len: 1 };
        }
        let len: usize = if tok.len == 0 {
            if tok.offset < self.source_len {
                1
            } else {
                0
            }
        } else {
            tok.len
        };
        SourceSpan { offset: tok.offset, len }
    }

    /// An error at the token ahead.
    pub(crate) fn error(&self, msg: String) -> (r: ParseError)
        requires
            self.wf(),
        ensures
            r@ == error_here(self.source(), self.ahead(), msg@),
    {
        ParseError::new(self.eof_aware_span(), msg)
    }

    /// An error at the token ahead that names it after `what`.
    pub(crate) fn error_found(&self, what: &str, after: &str) -> (r: ParseError)
        requires
            self.wf(),
        ensures
            r@ == error_here(
                self.source(),
                self.ahead(),
                what@ + token_name(cur(self.source(), self.ahead()).ty) + after@,
            ),
    {
        let mut msg = what.to_owned();
        msg.push_str(format_token(self.current_token()).as_str());
        msg.push_str(after);
        self.error(msg)
    }

    /// Whether the token ahead is of the given type.
    pub(crate) fn at(&self, ty: TokenType) -> (r: bool)
        requires
            self.wf(),
        ensures
            r == (cur(self.source(), self.ahead()).ty == ty@),
            r && !(ty@ is Eof) ==> self.ahead().len() > 0,
    {
        same_type(&self.current_token().ty, &ty)
    }

    /// Check that the token ahead is of the given type, and go on past it.
    pub(crate) fn expect_with_context(&mut self, ty: TokenType, context: &str) -> (r: Result<
        (),
        ParseError,
    >)
        requires
            old(self).wf(),
            !(ty@ is Eof),
        ensures
            final(self).follows(old(self), r is Ok),
            expected(old(self).source(), old(self).ahead(), ty@, context@) == (
                match r {
                    Ok(_) => Ok::<(), ParseErrorView>(()),
                    Err(e) => Err(e@),
                },
                final(self).ahead(),
            ),
    {
        if same_type(&self.current_token().ty, &ty) {
            self.advance();
            Ok(())
        } else {
            let mut what = "expected ".to_owned();
            what.push_str(format_token_type(&ty).as_str());
            what.push_str(" ");
            what.push_str(context);
            what.push_str(", found ");
            let e = self.error_found(what.as_str(), "");
            proof {
                reveal_strlit("");
                let ghost found = token_name(cur(self.source(), self.ahead()).ty);
                assert(what@ + found + ""@ =~= "expected "@ + type_title(ty@) + " "@ + context@
                    + ", found "@ + found);
            }
            Err(e)
        }
    }

    /// Read an identifier. `found` opens the message on a keyword, and `fallback`
    /// is the message on anything else.
    pub(crate) fn parse_ident(&mut self, found: &str, fallback: &str) -> (r: Result<
        String,
        ParseError,
    >)
        requires
            old(self).wf(),
        ensures
            final(self).follows(old(self), r is Ok),
            identifier(old(self).source(), old(self).ahead(), found@, fallback@) == (
                match r {
                    Ok(s) => Ok::<Seq<char>, ParseErrorView>(s@),
                    Err(e) => Err(e@),
                },
                final(self).ahead(),
            ),
    {
        let name = match &self.current_token().ty {
            TokenType::Ident(s) => s.clone(),
            ty => {
                if is_keyword_token(ty) {
                    let mut what = found.to_owned();
                    what.push_str(", found ");
                    return Err(self.error_found(what.as_str(), " (reserved keyword)"));
                }
                return Err(self.error(fallback.to_owned()));
            },
        };
        self.advance();
        Ok(name)
    }

    /// Read the name of a declared thing.
    pub(crate) fn parse_ident_name(&mut self, kind: &str, fallback: &str) -> (r: Result<
        String,
        ParseError,
    >)
        requires
            old(self).wf(),
        ensures
            final(self).follows(old(self), r is Ok),
            declared_name(old(self).source(), old(self).ahead(), kind@, fallback@) == (
                match r {
                    Ok(s) => Ok::<Seq<char>, ParseErrorView>(s@),
                    Err(e) => Err(e@),
                },
                final(self).ahead(),
            ),
    {
        let mut found = "expected ".to_owned();
        found.push_str(kind);
        found.push_str(" name");
        self.parse_ident(found.as_str(), fallback)
    }

    /// The error of an illegal token, where the token ahead is one.
    pub(crate) fn err_on_illegal_token(&self) -> (r: Result<(), ParseError>)
        requires
            self.wf(),
        ensures
            match r {
                Ok(_) => illegal(self.source(), self.ahead()) is None,
                Err(e) => illegal(self.source(), self.ahead()) == Some(e@),
            },
    {
        if let TokenType::Illegal(msg) = &self.current_token().ty {
            return Err(self.error(msg.clone()));
        }
        Ok(())
    }

    /// The error on a token that starts no statement.
    pub(crate) fn unexpected_stmt_start_error(&self, want: &str) -> (r: ParseError)
        requires
            self.wf(),
        ensures
            r@ == no_statement(self.source(), self.ahead(), want@),
    {
        if let TokenType::Ident(s) = &self.current_token().ty {
            if same(s.as_str(), "_") {
                return self.error("`_` is only valid as a case pattern".to_owned());
            }
        }
        let mut what = "expected ".to_owned();
        what.push_str(want);
        what.push_str(", found ");
        let e = self.error_found(what.as_str(), "");
        proof {
            reveal_strlit("");
            let ghost found = token_name(cur(self.source(), self.ahead()).ty);
            assert(what@ + found + ""@ =~= "expected "@ + want@ + ", found "@ + found);
        }
        e
    }
}


impl Parser {
    /// Read a declaration at the top of a file.
    fn parse_top_level_stmt(&mut self) -> (r: Result<Stmt, ParseError>)
        requires
            old(self).wf(),
        ensures
            final(self).follows(old(self), r is Ok),
            is_boundary(cur(old(self).source(), old(self).ahead()).ty) ==> final(self).follows(
                old(self),
                true,
            ),
            declaration(old(self).source(), old(self).ahead()) == (
                match r {
                    Ok(x) => Ok::<StmtView, ParseErrorView>(x@),
                    Err(e) => Err(e@),
                },
                final(self).ahead(),
            ),
    {
        proof {
            reveal(declaration);
        }
        if let Err(e) = self.err_on_illegal_token() {
            return Err(e);
        }
        match &self.current_token().ty {
            TokenType::Var => self.parse_var_decl(),
            TokenType::Pr => self.parse_project_decl(),
            TokenType::Fn => self.parse_fn_decl(),
            TokenType::Run => self.parse_run_decl(true),
            TokenType::SeqKw => self.parse_seq_decl(),
            TokenType::ParKw => self.parse_par_decl(),
            TokenType::Shell => self.parse_shell_decl(),
            TokenType::Sanctuary => self.parse_sanctuary_decl(),
            _ => Err(
                self.unexpected_stmt_start_error(
                    "var, pr, fn, or run, or else expected sanctuary, import, shell, seq, or par",
                ),
            ),
        }
    }

    /// Read the path of an import.
    fn parse_import_path(&mut self) -> (r: Result<Expr, ParseError>)
        requires
            old(self).wf(),
        ensures
            final(self).follows(old(self), r is Ok),
            import_path(old(self).source(), old(self).ahead()) == (
                match r {
                    Ok(x) => Ok::<ExprView, ParseErrorView>(x@),
                    Err(e) => Err(e@),
                },
                final(self).ahead(),
            ),
    {
        let tok = self.current_token().duplicate();
        match tok.ty {
            TokenType::PathLit(path) => {
                self.advance();
                let mut parts: Vec<InterpolationPart> = Vec::new();
                let ghost text = path@;
                if !path.as_str().is_empty() {
                    parts.push(
                        InterpolationPart { is_var: false, namespace: String::new(), value: path },
                    );
                    assert(parts@[0]@.namespace =~= Seq::<char>::empty());
                }
                assert(crate::dsl::syntax::part_views(parts@) =~= literal(text));
                Ok(
                    Expr::BacktickLit {
                        parts,
                        offset: tok.offset,
                        len: tok.len,
                        source_name: self.name(),
                    },
                )
            },
            _ => self.parse_expr(),
        }
    }

    /// Read an item of a file, or nothing at the end.
    pub fn parse_toplevel(&mut self) -> (r: Result<Option<TopLevel>, ParseError>)
        requires
            old(self).wf(),
        ensures
            final(self).follows(
                old(self),
                r matches Ok(Some(_)) || is_boundary(
                    cur(old(self).source(), old(self).ahead()).ty,
                ),
            ),
            r matches Ok(None) ==> cur(old(self).source(), old(self).ahead()).ty is Eof,
            item(old(self).source(), old(self).ahead()) == (
                match r {
                    Ok(x) => Ok::<Option<TopLevelView>, ParseErrorView>(
                        match x {
                            Some(i) => Some(i@),
                            None => None,
                        },
                    ),
                    Err(e) => Err(e@),
                },
                final(self).ahead(),
            ),
    {
        proof {
            reveal(item);
        }
        if self.at(TokenType::Eof) {
            return Ok(None);
        }
        if self.at(TokenType::Import) {
            self.advance();
            let path = match self.parse_import_path() {
                Ok(x) => x,
                Err(e) => {
                    return Err(e);
                },
            };
            return match self.expect_with_context(TokenType::Semicolon, "after import path") {
                Ok(_) => Ok(Some(TopLevel::Import(path))),
                Err(e) => Err(e),
            };
        }
        match self.parse_top_level_stmt() {
            Ok(s) => Ok(Some(TopLevel::Stmt(s))),
            Err(e) => Err(e),
        }
    }

    /// Go on to the next declaration.
    fn skip_to_stmt_boundary(&mut self)
        requires
            old(self).wf(),
        ensures
            final(self).follows(old(self), false),
            final(self).ahead() == from_boundary(old(self).source(), old(self).ahead()),
            !is_boundary(cur(old(self).source(), old(self).ahead()).ty) && !(cur(
                old(self).source(),
                old(self).ahead(),
            ).ty is Eof) ==> final(self).follows(old(self), true),
    {
        let ghost c = self.source();
        loop
            invariant_except_break
                self.follows(old(self), false),
                self.source() == c,
                c == old(self).source(),
                from_boundary(c, old(self).ahead()) == from_boundary(c, self.ahead()),
            ensures
                self.follows(old(self), false),
                self.ahead() == from_boundary(c, old(self).ahead()),
                !is_boundary(cur(c, old(self).ahead()).ty) && !(cur(c, old(self).ahead()).ty is Eof)
                    ==> self.follows(old(self), true),
            decreases self.ahead().len(),
        {
            match &self.current_token().ty {
                TokenType::Eof => {
                    break;
                },
                TokenType::Var => {
                    break;
                },
                TokenType::Pr => {
                    break;
                },
                TokenType::Fn => {
                    break;
                },
                TokenType::Run => {
                    break;
                },
                _ => {
                    self.advance();
                },
            }
        }
    }

    /// Read a whole file: its items, or all errors in it. After an error the
    /// parser goes on with the next declaration.
    pub fn parse(&mut self) -> (r: Result<Program, Vec<ParseError>>)
        requires
            old(self).wf(),
        ensures
            final(self).follows(old(self), false),
            ({
                let (items, errors) = file(old(self).source(), old(self).ahead());
                match r {
                    Ok(p) => errors.len() == 0 && top_level_views(p.items@) == items
                        && p.source_name@ == ""@ && p.source_text@ == ""@,
                    Err(e) => errors.len() > 0 && error_views(e@) == errors,
                }
            }),
    {
        let ghost c = self.source();
        let ghost whole = file(c, self.ahead());
        let mut program = Program::new();
        let mut errors: Vec<ParseError> = Vec::new();
        proof {
            assert(top_level_views(program.items@) + whole.0 =~= whole.0);
            assert(error_views(errors@) + whole.1 =~= whole.1);
        }
        while !self.at(TokenType::Eof)
            invariant
                self.follows(old(self), false),
                self.source() == c,
                whole == file(old(self).source(), old(self).ahead()),
                program.source_name@ == ""@,
                program.source_text@ == ""@,
                whole == (
                    top_level_views(program.items@) + file(c, self.ahead()).0,
                    error_views(errors@) + file(c, self.ahead()).1,
                ),
            decreases self.ahead().len(),
        {
            let ghost items = top_level_views(program.items@);
            let ghost errs = error_views(errors@);
            let ghost t = self.ahead();
            match self.parse_toplevel() {
                Ok(Some(x)) => {
                    program.items.push(x);
                    proof {
                        assert(top_level_views(program.items@) =~= items.push(x@));
                        let more = file(c, self.ahead()).0;
                        assert(items + (seq![x@] + more) =~= top_level_views(program.items@)
                            + more);
                    }
                },
                Ok(None) => {},
                Err(e) => {
                    errors.push(e);
                    self.skip_to_stmt_boundary();
                    proof {
                        assert(error_views(errors@) =~= errs.push(e@));
                        let more = file(c, self.ahead()).1;
                        assert(errs + (seq![e@] + more) =~= error_views(errors@) + more);
                    }
                },
            }
        }
        proof {
            assert(whole.0 =~= top_level_views(program.items@));
            assert(whole.1 =~= error_views(errors@));
        }
        if errors.len() == 0 {
            Ok(program)
        } else {
            Err(errors)
        }
    }
}

pub open spec fn error_views(s: Seq<ParseError>) -> Seq<ParseErrorView> {
    Seq::new(s.len(), |i: int| s[i]@)
}

/// Parse a text: its items, or all errors in it.
pub fn parse_program(input: &str) -> (r: Result<Program, Vec<ParseError>>)
    ensures
        ({
            let c = Source {
                eof: eof_from(input@, 0),
                len: crate::text::byte_len(input@) as usize,
                name: ""@,
            };
            let (items, errors) = file(c, tokens_from(input@, 0));
            match r {
                Ok(p) => errors.len() == 0 && top_level_views(p.items@) == items,
                Err(e) => errors.len() > 0 && error_views(e@) == errors,
            }
        }),
{
    let mut parser = Parser::from_source(input.to_owned());
    parser.parse()
}

} // verus!
