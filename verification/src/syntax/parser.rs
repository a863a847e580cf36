//! The parser of the template language.
use vstd::prelude::*;
use crate::dsl::ast::ProjectField;
use crate::dsl::error::{ParseError, ParseErrorView, SourceSpan};
use crate::plan::{call_views, stage_views, ArmPattern, ArmPatternView, Call, CallView};
use crate::syntax::grammar::{
    arm_pattern, assigned_template, block, closed_template, cur, declaration, env_block, env_pair,
    env_pairs, error_here, expected, field_key, field_stmt, fields, file, fn_stmt, identifier, item,
    named_field, named_template, project_item, project_items, project_stmt, rest, run_call,
    run_chains, run_stmt, shell_stmt, skip_semicolon, span_here, starts_field, statement,
    statements, switch_arm, switch_arms, switch_block, template, timeout_stmt, var_stmt, Source,
};
use crate::syntax::lexer::{
    eof_token, format_token, is_keyword_token, token_name, token_seq, tokenize, tokens_from, Token,
    TokenType, TokenView,
};
use crate::syntax::{
    arm_views, fn_stmt_views, pair_views, stmt_views, top_level_views, Arm, ArmView, EnvPair,
    EnvPairView, FnStmt, FnStmtView, Part, Program, Stmt, StmtView, Template, TemplateView,
    TopLevel, TopLevelView,
};
use crate::text::same;

verus! {

broadcast use vstd::string::group_string_axioms;

/// A parser at work on a source.
pub struct Parser {
    tokens: Vec<Token>,
    pos: usize,
    source_name: String,
}

/// Whether a token type is the given one, which holds no text.
fn same_type(a: &TokenType, b: &TokenType) -> (r: bool)
    requires
        !(b@ is Ident),
        !(b@ is Illegal),
        !(b@ is Template),
    ensures
        r == (a@ == b@),
{
    match (a, b) {
        (TokenType::Eof, TokenType::Eof) => true,
        (TokenType::LBrace, TokenType::LBrace) => true,
        (TokenType::RBrace, TokenType::RBrace) => true,
        (TokenType::LBracket, TokenType::LBracket) => true,
        (TokenType::RBracket, TokenType::RBracket) => true,
        (TokenType::Semicolon, TokenType::Semicolon) => true,
        (TokenType::Assign, TokenType::Assign) => true,
        (TokenType::Arrow, TokenType::Arrow) => true,
        (TokenType::NamespaceSep, TokenType::NamespaceSep) => true,
        (TokenType::Import, TokenType::Import) => true,
        (TokenType::Shell, TokenType::Shell) => true,
        (TokenType::Timeout, TokenType::Timeout) => true,
        (TokenType::Var, TokenType::Var) => true,
        (TokenType::Sync, TokenType::Sync) => true,
        (TokenType::Pr, TokenType::Pr) => true,
        (TokenType::Fn, TokenType::Fn) => true,
        (TokenType::Run, TokenType::Run) => true,
        (TokenType::Log, TokenType::Log) => true,
        (TokenType::Exec, TokenType::Exec) => true,
        (TokenType::Bind, TokenType::Bind) => true,
        (TokenType::Cd, TokenType::Cd) => true,
        (TokenType::Env, TokenType::Env) => true,
        (TokenType::Switch, TokenType::Switch) => true,
        (TokenType::Case, TokenType::Case) => true,
        _ => false,
    }
}

impl Parser {
    /// The source.
    pub closed spec fn source(&self) -> Source {
        Source { eof: self.tokens@[self.tokens@.len() - 1]@, name: self.source_name@ }
    }

    /// The tokens ahead, without the one at the end of the text.
    pub closed spec fn ahead(&self) -> Seq<TokenView> {
        token_seq(self.tokens@.subrange(self.pos as int, self.tokens@.len() - 1))
    }

    /// There is a token ahead, and the last one is the end.
    pub closed spec fn wf(&self) -> bool {
        &&& self.pos < self.tokens@.len()
        &&& self.tokens@[self.tokens@.len() - 1].ty@ is Eof
    }

    /// The parser has moved on over tokens of the same source, by one at least
    /// where `moved` is set.
    pub open spec fn follows(&self, before: &Parser, moved: bool) -> bool {
        &&& self.wf()
        &&& self.source() == before.source()
        &&& self.ahead().len() <= before.ahead().len()
        &&& moved ==> self.ahead().len() < before.ahead().len()
    }

    /// A parser for a text.
    pub fn new(text: &str, source_name: &str) -> (r: Self)
        ensures
            r.wf(),
            r.source() == (Source { eof: eof_token(text@), name: source_name@ }),
            r.ahead() == tokens_from(source_name@, text@, 0),
    {
        let tokens = tokenize(text, source_name);
        let r = Parser { tokens, pos: 0, source_name: source_name.to_owned() };
        assert(r.tokens@.subrange(0, r.tokens@.len() - 1) =~= r.tokens@.take(r.tokens@.len() - 1));
        r
    }

    fn current_token(&self) -> (r: &Token)
        requires
            self.wf(),
        ensures
            r@ == cur(self.source(), self.ahead()),
            !(r.ty@ is Eof) ==> self.ahead().len() > 0,
    {
        proof {
            let t = self.ahead();
            if t.len() > 0 {
                assert(t[0] == self.tokens@[self.pos as int]@);
            } else {
                assert(self.pos == self.tokens@.len() - 1);
            }
        }
        &self.tokens[self.pos]
    }

    fn name(&self) -> (r: String)
        ensures
            r@ == self.source().name,
    {
        self.source_name.clone()
    }

    /// Go on to the next token. The end stays.
    fn advance(&mut self)
        requires
            old(self).wf(),
        ensures
            final(self).wf(),
            final(self).source() == old(self).source(),
            final(self).ahead() == rest(old(self).ahead()),
    {
        let ghost t = self.ahead();
        if self.pos < self.tokens.len() - 1 {
            self.pos = self.pos + 1;
        }
        assert(self.ahead() =~= rest(t));
    }

    fn span(&self) -> (r: SourceSpan)
        requires
            self.wf(),
        ensures
            r == span_here(self.source(), self.ahead()),
    {
        let tok = self.current_token();
        if let TokenType::Eof = &tok.ty {
            if tok.offset > 0 {
                return SourceSpan { offset: tok.offset - 1, len: 1 };
            }
        }
        SourceSpan { offset: tok.offset, len: tok.len }
    }

    fn error(&self, msg: String) -> (r: ParseError)
        requires
            self.wf(),
        ensures
            r@ == error_here(self.source(), self.ahead(), msg@),
    {
        ParseError::new(self.span(), msg)
    }

    /// An error at the token ahead that names it after `what`.
    fn error_found(&self, what: &str) -> (r: ParseError)
        requires
            self.wf(),
        ensures
            r@ == error_here(
                self.source(),
                self.ahead(),
                what@ + token_name(cur(self.source(), self.ahead()).ty),
            ),
    {
        let mut msg = what.to_owned();
        msg.push_str(format_token(&self.current_token().ty).as_str());
        self.error(msg)
    }

    fn at(&self, ty: TokenType) -> (r: bool)
        requires
            self.wf(),
            !(ty@ is Ident),
            !(ty@ is Illegal),
            !(ty@ is Template),
        ensures
            r == (cur(self.source(), self.ahead()).ty == ty@),
            r && !(ty@ is Eof) ==> self.ahead().len() > 0,
    {
        same_type(&self.current_token().ty, &ty)
    }

    fn expect_with_context(&mut self, ty: TokenType, context: &str) -> (r: Result<(), ParseError>)
        requires
            old(self).wf(),
            !(ty@ is Ident),
            !(ty@ is Illegal),
            !(ty@ is Template),
            !(ty@ is Eof),
        ensures
            final(self).follows(old(self), r is Ok),
            expected(old(self).source(), old(self).ahead(), ty@, context@) == (
                match r {
                    Ok(_) => Ok::<(), ParseErrorView>(()),
                    Err(e) => Err(e@),
                },
                final(self).ahead(),
            ),
    {
        if same_type(&self.current_token().ty, &ty) {
            self.advance();
            Ok(())
        } else {
            let mut what = "expected ".to_owned();
            what.push_str(format_token(&ty).as_str());
            what.push_str(" ");
            what.push_str(context);
            what.push_str(", found ");
            Err(self.error_found(what.as_str()))
        }
    }

    fn parse_ident_name(&mut self, what: &str) -> (r: Result<String, ParseError>)
        requires
            old(self).wf(),
        ensures
            final(self).follows(old(self), r is Ok),
            identifier(old(self).source(), old(self).ahead(), what@) == (
                match r {
                    Ok(x) => Ok::<Seq<char>, ParseErrorView>(x@),
                    Err(e) => Err(e@),
                },
                final(self).ahead(),
            ),
    {
        let name = match &self.current_token().ty {
            TokenType::Ident(s) => s.clone(),
            TokenType::Illegal(msg) => {
                return Err(self.error(msg.clone()));
            },
            ty => {
                if is_keyword_token(ty) {
                    let mut msg = what.to_owned();
                    msg.push_str(", found ");
                    msg.push_str(format_token(ty).as_str());
                    msg.push_str(" (reserved keyword)");
                    return Err(self.error(msg));
                }
                return Err(self.error(what.to_owned()));
            },
        };
        self.advance();
        Ok(name)
    }

    /// Read a template.
    fn parse_expr(&mut self) -> (r: Result<Template, ParseError>)
        requires
            old(self).wf(),
        ensures
            final(self).follows(old(self), r is Ok),
            template(old(self).source(), old(self).ahead()) == (
                match r {
                    Ok(x) => Ok::<TemplateView, ParseErrorView>(x@),
                    Err(e) => Err(e@),
                },
                final(self).ahead(),
            ),
    {
        let value = match &self.current_token().ty {
            TokenType::Template(v) => v.duplicate(),
            TokenType::Illegal(msg) => {
                return Err(self.error(msg.clone()));
            },
            _ => {
                return Err(self.error_found("expected template, found "));
            },
        };
        self.advance();
        Ok(value)
    }

    fn pass_semicolon(&mut self)
        requires
            old(self).wf(),
        ensures
            final(self).follows(old(self), false),
            final(self).ahead() == skip_semicolon(old(self).source(), old(self).ahead()),
    {
        if self.at(TokenType::Semicolon) {
            self.advance();
        }
    }

    fn parse_closed(&mut self, context: &str) -> (r: Result<Template, ParseError>)
        requires
            old(self).wf(),
        ensures
            final(self).follows(old(self), r is Ok),
            closed_template(old(self).source(), old(self).ahead(), context@) == (
                match r {
                    Ok(x) => Ok::<TemplateView, ParseErrorView>(x@),
                    Err(e) => Err(e@),
                },
                final(self).ahead(),
            ),
    {
        let value = match self.parse_expr() {
            Ok(x) => x,
            Err(e) => {
                return Err(e);
            },
        };
        match self.expect_with_context(TokenType::Semicolon, context) {
            Ok(_) => Ok(value),
            Err(e) => Err(e),
        }
    }

    fn parse_assigned(&mut self, equals: &str, context: &str) -> (r: Result<Template, ParseError>)
        requires
            old(self).wf(),
        ensures
            final(self).follows(old(self), r is Ok),
            assigned_template(old(self).source(), old(self).ahead(), equals@, context@) == (
                match r {
                    Ok(x) => Ok::<TemplateView, ParseErrorView>(x@),
                    Err(e) => Err(e@),
                },
                final(self).ahead(),
            ),
    {
        if let Err(e) = self.expect_with_context(TokenType::Assign, equals) {
            return Err(e);
        }
        self.parse_closed(context)
    }

    fn parse_named(&mut self, what: &str, equals: &str, context: &str) -> (r: Result<
        (String, Template),
        ParseError,
    >)
        requires
            old(self).wf(),
        ensures
            final(self).follows(old(self), r is Ok),
            named_template(old(self).source(), old(self).ahead(), what@, equals@, context@) == (
                match r {
                    Ok(x) => Ok::<(Seq<char>, TemplateView), ParseErrorView>((x.0@, x.1@)),
                    Err(e) => Err(e@),
                },
                final(self).ahead(),
            ),
    {
        let name = match self.parse_ident_name(what) {
            Ok(x) => x,
            Err(e) => {
                return Err(e);
            },
        };
        match self.parse_assigned(equals, context) {
            Ok(value) => Ok((name, value)),
            Err(e) => Err(e),
        }
    }

    // ── Statements of a function ─────────────────────────────────────────────

    fn parse_env_pair(&mut self) -> (r: Result<EnvPair, ParseError>)
        requires
            old(self).wf(),
        ensures
            final(self).follows(old(self), r is Ok),
            env_pair(old(self).source(), old(self).ahead()) == (
                match r {
                    Ok(x) => Ok::<EnvPairView, ParseErrorView>(x@),
                    Err(e) => Err(e@),
                },
                final(self).ahead(),
            ),
    {
        let key = match self.parse_ident_name("expected identifier in env pair") {
            Ok(x) => x,
            Err(e) => {
                return Err(e);
            },
        };
        if let Err(e) = self.expect_with_context(TokenType::Assign, "in env pair") {
            return Err(e);
        }
        match self.parse_expr() {
            Ok(value) => Ok(EnvPair { key, value }),
            Err(e) => Err(e),
        }
    }

    fn parse_env_pairs(&mut self) -> (r: Result<Vec<EnvPair>, ParseError>)
        requires
            old(self).wf(),
        ensures
            final(self).follows(old(self), false),
            env_pairs(old(self).source(), old(self).ahead()) == (
                match r {
                    Ok(x) => Ok::<Seq<EnvPairView>, ParseErrorView>(pair_views(x@)),
                    Err(e) => Err(e@),
                },
                final(self).ahead(),
            ),
    {
        let ghost c = self.source();
        let ghost whole = env_pairs(c, self.ahead());
        let mut out: Vec<EnvPair> = Vec::new();
        proof {
            if let (Ok(more), v) = whole {
                assert(pair_views(out@) + more =~= more);
            }
        }
        while !self.at(TokenType::RBracket)
            invariant
                self.follows(old(self), false),
                self.source() == c,
                whole == env_pairs(old(self).source(), old(self).ahead()),
                whole == match env_pairs(c, self.ahead()) {
                    (Ok(more), v) => (
                        Ok::<Seq<EnvPairView>, ParseErrorView>(pair_views(out@) + more),
                        v,
                    ),
                    (Err(e), v) => (Err(e), v),
                },
            decreases self.ahead().len(),
        {
            let ghost done = pair_views(out@);
            match self.parse_env_pair() {
                Err(e) => {
                    return Err(e);
                },
                Ok(x) => {
                    out.push(x);
                    proof {
                        assert(pair_views(out@) =~= done.push(x@));
                        if let (Ok(more), v) = env_pairs(c, self.ahead()) {
                            assert(done + (seq![x@] + more) =~= pair_views(out@) + more);
                        }
                    }
                },
            }
        }
        assert(pair_views(out@) + Seq::<EnvPairView>::empty() =~= pair_views(out@));
        Ok(out)
    }

    fn parse_statements(&mut self) -> (r: Result<Vec<FnStmt>, ParseError>)
        requires
            old(self).wf(),
        ensures
            final(self).follows(old(self), false),
            statements(old(self).source(), old(self).ahead()) == (
                match r {
                    Ok(x) => Ok::<Seq<FnStmtView>, ParseErrorView>(fn_stmt_views(x@)),
                    Err(e) => Err(e@),
                },
                final(self).ahead(),
            ),
        decreases old(self).ahead().len(), 2int,
    {
        let ghost c = self.source();
        let ghost whole = statements(c, self.ahead());
        let mut out: Vec<FnStmt> = Vec::new();
        proof {
            if let (Ok(more), v) = whole {
                assert(fn_stmt_views(out@) + more =~= more);
            }
        }
        while !self.at(TokenType::RBrace)
            invariant
                self.follows(old(self), false),
                self.source() == c,
                whole == statements(old(self).source(), old(self).ahead()),
                whole == match statements(c, self.ahead()) {
                    (Ok(more), v) => (
                        Ok::<Seq<FnStmtView>, ParseErrorView>(fn_stmt_views(out@) + more),
                        v,
                    ),
                    (Err(e), v) => (Err(e), v),
                },
            decreases self.ahead().len(),
        {
            let ghost done = fn_stmt_views(out@);
            match self.parse_fn_stmt() {
                Err(e) => {
                    return Err(e);
                },
                Ok(x) => {
                    out.push(x);
                    proof {
                        assert(fn_stmt_views(out@) =~= done.push(x@));
                        if let (Ok(more), v) = statements(c, self.ahead()) {
                            assert(done + (seq![x@] + more) =~= fn_stmt_views(out@) + more);
                        }
                    }
                },
            }
        }
        assert(fn_stmt_views(out@) + Seq::<FnStmtView>::empty() =~= fn_stmt_views(out@));
        Ok(out)
    }

    fn parse_block(&mut self, open: &str, close: &str) -> (r: Result<Vec<FnStmt>, ParseError>)
        requires
            old(self).wf(),
        ensures
            final(self).follows(old(self), r is Ok),
            block(old(self).source(), old(self).ahead(), open@, close@) == (
                match r {
                    Ok(x) => Ok::<Seq<FnStmtView>, ParseErrorView>(fn_stmt_views(x@)),
                    Err(e) => Err(e@),
                },
                final(self).ahead(),
            ),
        decreases old(self).ahead().len(), 3int,
    {
        if let Err(e) = self.expect_with_context(TokenType::LBrace, open) {
            return Err(e);
        }
        let body = match self.parse_statements() {
            Ok(x) => x,
            Err(e) => {
                return Err(e);
            },
        };
        match self.expect_with_context(TokenType::RBrace, close) {
            Ok(_) => Ok(body),
            Err(e) => Err(e),
        }
    }

    fn parse_env_block(&mut self) -> (r: Result<FnStmt, ParseError>)
        requires
            old(self).wf(),
            cur(old(self).source(), old(self).ahead()).ty is Env,
        ensures
            final(self).follows(old(self), r is Ok),
            env_block(old(self).source(), old(self).ahead()) == (
                match r {
                    Ok(x) => Ok::<FnStmtView, ParseErrorView>(x@),
                    Err(e) => Err(e@),
                },
                final(self).ahead(),
            ),
        decreases old(self).ahead().len(), 0int,
    {
        self.advance();
        if let Err(e) = self.expect_with_context(TokenType::LBracket, "after `env`") {
            return Err(e);
        }
        let pairs = match self.parse_env_pairs() {
            Ok(x) => x,
            Err(e) => {
                return Err(e);
            },
        };
        if let Err(e) = self.expect_with_context(TokenType::RBracket, "to close env pairs") {
            return Err(e);
        }
        let body = match self.parse_block("to open env block body", "to close env block body") {
            Ok(x) => x,
            Err(e) => {
                return Err(e);
            },
        };
        self.pass_semicolon();
        let s = FnStmt::EnvBlock { pairs, body };
        assert(s@->EnvBlock_body =~= fn_stmt_views(body@));
        Ok(s)
    }

    fn parse_pattern(&mut self) -> (r: Result<ArmPattern, ParseError>)
        requires
            old(self).wf(),
        ensures
            final(self).follows(old(self), r is Ok),
            arm_pattern(old(self).source(), old(self).ahead()) == (
                match r {
                    Ok(x) => Ok::<ArmPatternView, ParseErrorView>(x@),
                    Err(e) => Err(e@),
                },
                final(self).ahead(),
            ),
    {
        let pattern = match &self.current_token().ty {
            TokenType::Template(v) => {
                assert(v@.parts =~= crate::syntax::part_views(v.parts@));
                if v.parts.len() == 0 {
                    let text = String::new();
                    assert(text@ =~= Seq::<char>::empty());
                    ArmPattern::Lit(text)
                } else if v.parts.len() == 1 {
                    match &v.parts[0] {
                        Part::Lit(s) => ArmPattern::Lit(s.clone()),
                        _ => {
                            return Err(self.error("case pattern must be literal text".to_owned()));
                        },
                    }
                } else {
                    return Err(self.error("case pattern must be literal text".to_owned()));
                }
            },
            TokenType::Illegal(msg) => {
                return Err(self.error(msg.clone()));
            },
            ty => {
                let is_default = match ty {
                    TokenType::Ident(s) => same(s.as_str(), "_"),
                    _ => false,
                };
                if !is_default {
                    return Err(self.error_found("expected case pattern, found "));
                }
                ArmPattern::Default
            },
        };
        self.advance();
        Ok(pattern)
    }

    fn parse_arm(&mut self) -> (r: Result<Arm, ParseError>)
        requires
            old(self).wf(),
        ensures
            final(self).follows(old(self), r is Ok),
            switch_arm(old(self).source(), old(self).ahead()) == (
                match r {
                    Ok(x) => Ok::<ArmView, ParseErrorView>(x@),
                    Err(e) => Err(e@),
                },
                final(self).ahead(),
            ),
        decreases old(self).ahead().len(), 0int,
    {
        if let Err(e) = self.expect_with_context(TokenType::Case, "in switch block") {
            return Err(e);
        }
        let pattern = match self.parse_pattern() {
            Ok(x) => x,
            Err(e) => {
                return Err(e);
            },
        };
        let body = match self.parse_block("after case pattern", "to close case arm body") {
            Ok(x) => x,
            Err(e) => {
                return Err(e);
            },
        };
        self.pass_semicolon();
        let arm = Arm { pattern, body };
        assert(arm@.body =~= fn_stmt_views(body@));
        Ok(arm)
    }

    fn parse_arms(&mut self) -> (r: Result<Vec<Arm>, ParseError>)
        requires
            old(self).wf(),
        ensures
            final(self).follows(old(self), false),
            switch_arms(old(self).source(), old(self).ahead()) == (
                match r {
                    Ok(x) => Ok::<Seq<ArmView>, ParseErrorView>(arm_views(x@)),
                    Err(e) => Err(e@),
                },
                final(self).ahead(),
            ),
        decreases old(self).ahead().len(), 1int,
    {
        let ghost c = self.source();
        let ghost whole = switch_arms(c, self.ahead());
        let mut out: Vec<Arm> = Vec::new();
        proof {
            if let (Ok(more), v) = whole {
                assert(arm_views(out@) + more =~= more);
            }
        }
        while !self.at(TokenType::RBrace)
            invariant
                self.follows(old(self), false),
                self.source() == c,
                whole == switch_arms(old(self).source(), old(self).ahead()),
                whole == match switch_arms(c, self.ahead()) {
                    (Ok(more), v) => (
                        Ok::<Seq<ArmView>, ParseErrorView>(arm_views(out@) + more),
                        v,
                    ),
                    (Err(e), v) => (Err(e), v),
                },
            decreases self.ahead().len(),
        {
            let ghost done = arm_views(out@);
            match self.parse_arm() {
                Err(e) => {
                    return Err(e);
                },
                Ok(x) => {
                    out.push(x);
                    proof {
                        assert(arm_views(out@) =~= done.push(x@));
                        if let (Ok(more), v) = switch_arms(c, self.ahead()) {
                            assert(done + (seq![x@] + more) =~= arm_views(out@) + more);
                        }
                    }
                },
            }
        }
        assert(arm_views(out@) + Seq::<ArmView>::empty() =~= arm_views(out@));
        Ok(out)
    }

    fn parse_switch(&mut self) -> (r: Result<FnStmt, ParseError>)
        requires
            old(self).wf(),
            cur(old(self).source(), old(self).ahead()).ty is Switch,
        ensures
            final(self).follows(old(self), r is Ok),
            switch_block(old(self).source(), old(self).ahead()) == (
                match r {
                    Ok(x) => Ok::<FnStmtView, ParseErrorView>(x@),
                    Err(e) => Err(e@),
                },
                final(self).ahead(),
            ),
        decreases old(self).ahead().len(), 0int,
    {
        self.advance();
        let subject = match self.parse_expr() {
            Ok(x) => x,
            Err(e) => {
                return Err(e);
            },
        };
        if let Err(e) = self.expect_with_context(TokenType::LBrace, "to open switch arms") {
            return Err(e);
        }
        let arms = match self.parse_arms() {
            Ok(x) => x,
            Err(e) => {
                return Err(e);
            },
        };
        if let Err(e) = self.expect_with_context(TokenType::RBrace, "to close switch block") {
            return Err(e);
        }
        self.pass_semicolon();
        let s = FnStmt::Switch { subject, arms };
        assert(s@->Switch_arms =~= arm_views(arms@));
        Ok(s)
    }

    fn parse_fn_stmt(&mut self) -> (r: Result<FnStmt, ParseError>)
        requires
            old(self).wf(),
        ensures
            final(self).follows(old(self), r is Ok),
            statement(old(self).source(), old(self).ahead()) == (
                match r {
                    Ok(x) => Ok::<FnStmtView, ParseErrorView>(x@),
                    Err(e) => Err(e@),
                },
                final(self).ahead(),
            ),
        decreases old(self).ahead().len(), 1int,
    {
        match &self.current_token().ty {
            TokenType::Illegal(msg) => Err(self.error(msg.clone())),
            TokenType::Log => {
                self.advance();
                match self.parse_closed("after `log`") {
                    Ok(value) => Ok(FnStmt::Log(value)),
                    Err(e) => Err(e),
                }
            },
            TokenType::Cd => {
                self.advance();
                match self.parse_closed("after `cd`") {
                    Ok(value) => Ok(FnStmt::Cd(value)),
                    Err(e) => Err(e),
                }
            },
            TokenType::Exec => {
                self.advance();
                match self.parse_closed("after `exec`") {
                    Ok(value) => Ok(FnStmt::Bind { target: None, value }),
                    Err(e) => Err(e),
                }
            },
            TokenType::Template(_) => match self.parse_closed("after command") {
                Ok(value) => Ok(FnStmt::Bind { target: None, value }),
                Err(e) => Err(e),
            },
            TokenType::Bind => {
                self.advance();
                match self.parse_named("expected variable name", "in `bind`", "after `bind`") {
                    Ok((name, value)) => Ok(FnStmt::Bind { target: Some(name), value }),
                    Err(e) => Err(e),
                }
            },
            TokenType::Env => self.parse_env_block(),
            TokenType::Switch => self.parse_switch(),
            _ => Err(self.error_found("expected log, exec, bind, cd, env, or switch, found ")),
        }
    }

    // ── Declarations ─────────────────────────────────────────────────────────

    fn parse_var_decl(&mut self) -> (r: Result<Stmt, ParseError>)
        requires
            old(self).wf(),
            cur(old(self).source(), old(self).ahead()).ty is Var,
        ensures
            final(self).follows(old(self), r is Ok),
            var_stmt(old(self).source(), old(self).ahead()) == (
                match r {
                    Ok(x) => Ok::<StmtView, ParseErrorView>(x@),
                    Err(e) => Err(e@),
                },
                final(self).ahead(),
            ),
    {
        let offset = self.current_token().offset;
        let len = self.current_token().len;
        self.advance();
        match self.parse_named(
            "expected variable name",
            "in variable declaration",
            "after variable declaration",
        ) {
            Ok((name, value)) => Ok(Stmt::Var { name, value, offset, len }),
            Err(e) => Err(e),
        }
    }

    fn parse_fn_decl(&mut self) -> (r: Result<Stmt, ParseError>)
        requires
            old(self).wf(),
            cur(old(self).source(), old(self).ahead()).ty is Fn,
        ensures
            final(self).follows(old(self), r is Ok),
            fn_stmt(old(self).source(), old(self).ahead()) == (
                match r {
                    Ok(x) => Ok::<StmtView, ParseErrorView>(x@),
                    Err(e) => Err(e@),
                },
                final(self).ahead(),
            ),
    {
        let offset = self.current_token().offset;
        let len = self.current_token().len;
        self.advance();
        let name = match self.parse_ident_name("expected function name") {
            Ok(x) => x,
            Err(e) => {
                return Err(e);
            },
        };
        let body = match self.parse_block("after function name", "to close function body") {
            Ok(x) => x,
            Err(e) => {
                return Err(e);
            },
        };
        self.pass_semicolon();
        Ok(Stmt::Fn { name, body, offset, len })
    }

    fn parse_run_call(&mut self) -> (r: Result<Call, ParseError>)
        requires
            old(self).wf(),
        ensures
            final(self).follows(old(self), r is Ok),
            run_call(old(self).source(), old(self).ahead()) == (
                match r {
                    Ok(x) => Ok::<CallView, ParseErrorView>(x@),
                    Err(e) => Err(e@),
                },
                final(self).ahead(),
            ),
    {
        let project = match self.parse_ident_name("expected project namespace in run reference") {
            Ok(x) => x,
            Err(e) => {
                return Err(e);
            },
        };
        if let Err(e) = self.expect_with_context(TokenType::NamespaceSep, "in run reference") {
            return Err(e);
        }
        match self.parse_ident_name("expected function name after `::` in run reference") {
            Ok(function) => Ok(Call { project, function }),
            Err(e) => Err(e),
        }
    }

    fn parse_chains(&mut self) -> (r: Result<Vec<Vec<Call>>, ParseError>)
        requires
            old(self).wf(),
        ensures
            final(self).follows(old(self), false),
            run_chains(old(self).source(), old(self).ahead(), Seq::empty()) == (
                match r {
                    Ok(x) => Ok::<Seq<Seq<CallView>>, ParseErrorView>(stage_views(x@)),
                    Err(e) => Err(e@),
                },
                final(self).ahead(),
            ),
    {
        let ghost c = self.source();
        let ghost whole = run_chains(c, self.ahead(), Seq::empty());
        let mut chains: Vec<Vec<Call>> = Vec::new();
        let mut current: Vec<Call> = Vec::new();
        proof {
            assert(call_views(current@) =~= Seq::<CallView>::empty());
            if let (Ok(more), v) = whole {
                assert(stage_views(chains@) + more =~= more);
            }
        }
        while !self.at(TokenType::RBrace)
            invariant
                self.follows(old(self), false),
                self.source() == c,
                whole == run_chains(old(self).source(), old(self).ahead(), Seq::empty()),
                whole == match run_chains(c, self.ahead(), call_views(current@)) {
                    (Ok(more), v) => (
                        Ok::<Seq<Seq<CallView>>, ParseErrorView>(stage_views(chains@) + more),
                        v,
                    ),
                    (Err(e), v) => (Err(e), v),
                },
            decreases self.ahead().len(),
        {
            let ghost done = stage_views(chains@);
            let ghost chain = call_views(current@);
            let call = match self.parse_run_call() {
                Ok(x) => x,
                Err(e) => {
                    return Err(e);
                },
            };
            let ghost callv = call@;
            current.push(call);
            assert(call_views(current@) =~= chain.push(callv));
            match &self.current_token().ty {
                TokenType::Arrow => {
                    self.advance();
                },
                TokenType::Semicolon => {
                    self.advance();
                    chains.push(current);
                    proof {
                        assert(stage_views(chains@) =~= done.push(chain.push(callv)));
                        if let (Ok(more), v) = run_chains(c, self.ahead(), Seq::empty()) {
                            assert(done + (seq![chain.push(callv)] + more) =~= stage_views(
                                chains@,
                            ) + more);
                        }
                    }
                    current = Vec::new();
                    assert(call_views(current@) =~= Seq::<CallView>::empty());
                },
                TokenType::RBrace => {},
                _ => {
                    return Err(
                        self.error_found(
                            "expected `;`, `=>`, or `}` after run reference, found ",
                        ),
                    );
                },
            }
        }
        let ghost done = stage_views(chains@);
        if current.len() > 0 {
            let ghost last = call_views(current@);
            chains.push(current);
            assert(stage_views(chains@) =~= done + seq![last]);
        } else {
            assert(stage_views(chains@) + Seq::<Seq<CallView>>::empty() =~= stage_views(chains@));
        }
        Ok(chains)
    }

    fn parse_run_decl(&mut self) -> (r: Result<Stmt, ParseError>)
        requires
            old(self).wf(),
            cur(old(self).source(), old(self).ahead()).ty is Run,
        ensures
            final(self).follows(old(self), r is Ok),
            run_stmt(old(self).source(), old(self).ahead()) == (
                match r {
                    Ok(x) => Ok::<StmtView, ParseErrorView>(x@),
                    Err(e) => Err(e@),
                },
                final(self).ahead(),
            ),
    {
        let offset = self.current_token().offset;
        self.advance();
        let name = match self.parse_ident_name("expected run block name") {
            Ok(x) => x,
            Err(e) => {
                return Err(e);
            },
        };
        if let Err(e) = self.expect_with_context(TokenType::LBrace, "after run block name") {
            return Err(e);
        }
        let calls = match self.parse_chains() {
            Ok(x) => x,
            Err(e) => {
                return Err(e);
            },
        };
        let end = self.current_token().offset.saturating_add(self.current_token().len);
        if let Err(e) = self.expect_with_context(TokenType::RBrace, "to close run block") {
            return Err(e);
        }
        self.pass_semicolon();
        Ok(Stmt::Run { name, calls, offset, len: end.saturating_sub(offset) })
    }

    fn is_field_start(&self) -> (r: bool)
        requires
            self.wf(),
        ensures
            r == starts_field(self.source(), self.ahead()),
    {
        match &self.current_token().ty {
            TokenType::Sync => true,
            TokenType::Ident(s) => field_named(s.as_str()).is_some(),
            _ => false,
        }
    }

    fn parse_field_key(&mut self) -> (r: Result<ProjectField, ParseError>)
        requires
            old(self).wf(),
        ensures
            final(self).follows(old(self), r is Ok),
            field_key(old(self).source(), old(self).ahead()) == (
                match r {
                    Ok(x) => Ok::<ProjectField, ParseErrorView>(x),
                    Err(e) => Err(e@),
                },
                final(self).ahead(),
            ),
    {
        let key = match &self.current_token().ty {
            TokenType::Sync => {
                self.advance();
                return Ok(ProjectField::Sync);
            },
            TokenType::Ident(s) => s.clone(),
            _ => {
                return Err(self.error("expected project field name".to_owned()));
            },
        };
        self.advance();
        match field_named(key.as_str()) {
            Some(field) => Ok(field),
            None => {
                let mut msg = "unknown project field: ".to_owned();
                msg.push_str(key.as_str());
                Err(self.error(msg))
            },
        }
    }

    fn parse_field(&mut self, seen: &Vec<ProjectField>) -> (r: Result<
        (ProjectField, Stmt),
        ParseError,
    >)
        requires
            old(self).wf(),
        ensures
            final(self).follows(old(self), r is Ok),
            field_stmt(old(self).source(), old(self).ahead(), seen@) == (
                match r {
                    Ok(x) => Ok::<(ProjectField, StmtView), ParseErrorView>((x.0, x.1@)),
                    Err(e) => Err(e@),
                },
                final(self).ahead(),
            ),
    {
        let offset = self.current_token().offset;
        let key = match self.parse_field_key() {
            Ok(x) => x,
            Err(e) => {
                return Err(e);
            },
        };
        if is_seen(seen, key) {
            let mut msg = "duplicate project field: ".to_owned();
            msg.push_str(key.as_str());
            return Err(self.error(msg));
        }
        if let Err(e) = self.expect_with_context(TokenType::Assign, "in project field") {
            return Err(e);
        }
        let value = match self.parse_expr() {
            Ok(x) => x,
            Err(e) => {
                return Err(e);
            },
        };
        self.pass_semicolon();
        let end = self.current_token().offset;
        Ok((key, Stmt::Field { key, value, offset, len: end.saturating_sub(offset) }))
    }

    fn parse_project_fields_section(&mut self) -> (r: Result<Vec<Stmt>, ParseError>)
        requires
            old(self).wf(),
        ensures
            final(self).follows(old(self), false),
            fields(old(self).source(), old(self).ahead(), Seq::empty()) == (
                match r {
                    Ok(x) => Ok::<Seq<StmtView>, ParseErrorView>(stmt_views(x@)),
                    Err(e) => Err(e@),
                },
                final(self).ahead(),
            ),
    {
        let ghost c = self.source();
        let ghost whole = fields(c, self.ahead(), Seq::empty());
        let mut out: Vec<Stmt> = Vec::new();
        let mut seen: Vec<ProjectField> = Vec::new();
        proof {
            assert(seen@ =~= Seq::<ProjectField>::empty());
            if let (Ok(more), v) = whole {
                assert(stmt_views(out@) + more =~= more);
            }
        }
        while !self.at(TokenType::RBrace)
            invariant
                self.follows(old(self), false),
                self.source() == c,
                whole == fields(old(self).source(), old(self).ahead(), Seq::empty()),
                whole == match fields(c, self.ahead(), seen@) {
                    (Ok(more), v) => (
                        Ok::<Seq<StmtView>, ParseErrorView>(stmt_views(out@) + more),
                        v,
                    ),
                    (Err(e), v) => (Err(e), v),
                },
            decreases self.ahead().len(),
        {
            let ghost done = stmt_views(out@);
            match self.parse_field(&seen) {
                Err(e) => {
                    return Err(e);
                },
                Ok((key, field)) => {
                    seen.push(key);
                    out.push(field);
                    proof {
                        assert(stmt_views(out@) =~= done.push(field@));
                        if let (Ok(more), v) = fields(c, self.ahead(), seen@) {
                            assert(done + (seq![field@] + more) =~= stmt_views(out@) + more);
                        }
                    }
                },
            }
        }
        assert(stmt_views(out@) + Seq::<StmtView>::empty() =~= stmt_views(out@));
        Ok(out)
    }

    fn parse_project_item(&mut self) -> (r: Result<Stmt, ParseError>)
        requires
            old(self).wf(),
        ensures
            final(self).follows(old(self), r is Ok),
            project_item(old(self).source(), old(self).ahead()) == (
                match r {
                    Ok(x) => Ok::<StmtView, ParseErrorView>(x@),
                    Err(e) => Err(e@),
                },
                final(self).ahead(),
            ),
    {
        match &self.current_token().ty {
            TokenType::Var => self.parse_var_decl(),
            TokenType::Fn => self.parse_fn_decl(),
            _ => Err(self.error("expected `var` or `fn` in project body".to_owned())),
        }
    }

    fn parse_project_body(&mut self) -> (r: Result<Vec<Stmt>, ParseError>)
        requires
            old(self).wf(),
        ensures
            final(self).follows(old(self), false),
            project_items(old(self).source(), old(self).ahead()) == (
                match r {
                    Ok(x) => Ok::<Seq<StmtView>, ParseErrorView>(stmt_views(x@)),
                    Err(e) => Err(e@),
                },
                final(self).ahead(),
            ),
    {
        let ghost c = self.source();
        let ghost whole = project_items(c, self.ahead());
        let mut out: Vec<Stmt> = Vec::new();
        proof {
            if let (Ok(more), v) = whole {
                assert(stmt_views(out@) + more =~= more);
            }
        }
        while !self.at(TokenType::RBrace)
            invariant
                self.follows(old(self), false),
                self.source() == c,
                whole == project_items(old(self).source(), old(self).ahead()),
                whole == match project_items(c, self.ahead()) {
                    (Ok(more), v) => (
                        Ok::<Seq<StmtView>, ParseErrorView>(stmt_views(out@) + more),
                        v,
                    ),
                    (Err(e), v) => (Err(e), v),
                },
            decreases self.ahead().len(),
        {
            let ghost done = stmt_views(out@);
            match self.parse_project_item() {
                Err(e) => {
                    return Err(e);
                },
                Ok(x) => {
                    out.push(x);
                    proof {
                        assert(stmt_views(out@) =~= done.push(x@));
                        if let (Ok(more), v) = project_items(c, self.ahead()) {
                            assert(done + (seq![x@] + more) =~= stmt_views(out@) + more);
                        }
                    }
                },
            }
        }
        assert(stmt_views(out@) + Seq::<StmtView>::empty() =~= stmt_views(out@));
        Ok(out)
    }

    fn parse_project_decl(&mut self) -> (r: Result<Stmt, ParseError>)
        requires
            old(self).wf(),
            !(cur(old(self).source(), old(self).ahead()).ty is Eof),
        ensures
            final(self).follows(old(self), r is Ok),
            project_stmt(old(self).source(), old(self).ahead()) == (
                match r {
                    Ok(x) => Ok::<StmtView, ParseErrorView>(x@),
                    Err(e) => Err(e@),
                },
                final(self).ahead(),
            ),
    {
        self.advance();
        let name = match self.parse_ident_name("expected project name") {
            Ok(x) => x,
            Err(e) => {
                return Err(e);
            },
        };
        if let Err(e) = self.expect_with_context(TokenType::LBrace, "after project name") {
            return Err(e);
        }
        if self.is_field_start() {
            let fields = match self.parse_project_fields_section() {
                Ok(x) => x,
                Err(e) => {
                    return Err(e);
                },
            };
            if let Err(e) = self.expect_with_context(
                TokenType::RBrace,
                "to close project field list",
            ) {
                return Err(e);
            }
            self.pass_semicolon();
            let s = Stmt::Project { name, fields, body: Vec::new() };
            proof {
                assert(s@->Project_fields =~= stmt_views(fields@));
                assert(s@->Project_body =~= Seq::<StmtView>::empty());
            }
            Ok(s)
        } else {
            let body = match self.parse_project_body() {
                Ok(x) => x,
                Err(e) => {
                    return Err(e);
                },
            };
            if let Err(e) = self.expect_with_context(TokenType::RBrace, "to close project body") {
                return Err(e);
            }
            self.pass_semicolon();
            let s = Stmt::Project { name, fields: Vec::new(), body };
            proof {
                assert(s@->Project_body =~= stmt_views(body@));
                assert(s@->Project_fields =~= Seq::<StmtView>::empty());
            }
            Ok(s)
        }
    }

    fn parse_shell_decl(&mut self) -> (r: Result<Stmt, ParseError>)
        requires
            old(self).wf(),
            cur(old(self).source(), old(self).ahead()).ty is Shell,
        ensures
            final(self).follows(old(self), r is Ok),
            shell_stmt(old(self).source(), old(self).ahead()) == (
                match r {
                    Ok(x) => Ok::<StmtView, ParseErrorView>(x@),
                    Err(e) => Err(e@),
                },
                final(self).ahead(),
            ),
    {
        let offset = self.current_token().offset;
        let len = self.current_token().len;
        self.advance();
        match self.parse_assigned("after `shell`", "after shell declaration") {
            Ok(value) => Ok(Stmt::Shell { value, offset, len, source_name: self.name() }),
            Err(e) => Err(e),
        }
    }

    fn parse_timeout_decl(&mut self) -> (r: Result<Stmt, ParseError>)
        requires
            old(self).wf(),
            cur(old(self).source(), old(self).ahead()).ty is Timeout,
        ensures
            final(self).follows(old(self), r is Ok),
            timeout_stmt(old(self).source(), old(self).ahead()) == (
                match r {
                    Ok(x) => Ok::<StmtView, ParseErrorView>(x@),
                    Err(e) => Err(e@),
                },
                final(self).ahead(),
            ),
    {
        let offset = self.current_token().offset;
        let len = self.current_token().len;
        self.advance();
        match self.parse_assigned("after `timeout`", "after timeout declaration") {
            Ok(value) => Ok(Stmt::Timeout { value, offset, len, source_name: self.name() }),
            Err(e) => Err(e),
        }
    }

    fn parse_top_level_stmt(&mut self) -> (r: Result<Stmt, ParseError>)
        requires
            old(self).wf(),
        ensures
            final(self).follows(old(self), r is Ok),
            declaration(old(self).source(), old(self).ahead()) == (
                match r {
                    Ok(x) => Ok::<StmtView, ParseErrorView>(x@),
                    Err(e) => Err(e@),
                },
                final(self).ahead(),
            ),
    {
        proof {
            reveal(declaration);
        }
        match &self.current_token().ty {
            TokenType::Illegal(msg) => Err(self.error(msg.clone())),
            TokenType::Shell => self.parse_shell_decl(),
            TokenType::Timeout => self.parse_timeout_decl(),
            TokenType::Var => self.parse_var_decl(),
            TokenType::Sync => self.parse_project_decl(),
            TokenType::Pr => self.parse_project_decl(),
            TokenType::Fn => self.parse_fn_decl(),
            TokenType::Run => self.parse_run_decl(),
            _ => Err(
                self.error_found(
                    "expected import, shell, timeout, var, sync, pr, fn, or run, found ",
                ),
            ),
        }
    }

    /// Read an item of a file, or nothing at the end.
    pub fn parse_toplevel(&mut self) -> (r: Result<Option<TopLevel>, ParseError>)
        requires
            old(self).wf(),
        ensures
            final(self).follows(old(self), r matches Ok(Some(_))),
            item(old(self).source(), old(self).ahead()) == (
                match r {
                    Ok(x) => Ok::<Option<TopLevelView>, ParseErrorView>(
                        match x {
                            Some(i) => Some(i@),
                            None => None,
                        },
                    ),
                    Err(e) => Err(e@),
                },
                final(self).ahead(),
            ),
    {
        proof {
            reveal(item);
        }
        if self.at(TokenType::Eof) {
            return Ok(None);
        }
        if self.at(TokenType::Import) {
            self.advance();
            return match self.parse_closed("after import path") {
                Ok(path) => Ok(Some(TopLevel::Import(path))),
                Err(e) => Err(e),
            };
        }
        match self.parse_top_level_stmt() {
            Ok(s) => Ok(Some(TopLevel::Stmt(s))),
            Err(e) => Err(e),
        }
    }
}

fn field_named(key: &str) -> (r: Option<ProjectField>)
    ensures
        r == named_field(key@),
{
    match ProjectField::from_str(key) {
        Ok(ProjectField::Url) => Some(ProjectField::Url),
        Ok(ProjectField::Dir) => Some(ProjectField::Dir),
        Ok(ProjectField::Branch) => Some(ProjectField::Branch),
        _ => None,
    }
}

fn is_seen(seen: &Vec<ProjectField>, key: ProjectField) -> (r: bool)
    ensures
        r == seen@.contains(key),
{
    let mut i: usize = 0;
    while i < seen.len()
        invariant
            i <= seen@.len(),
            forall|k: int| 0 <= k < i ==> seen@[k] != key,
        decreases seen@.len() - i,
    {
        if seen[i] == key {
            return true;
        }
        i += 1;
    }
    false
}

/// Parse the text of a file: its program, or the first error in it.
pub fn parse_source(source_name: String, source_text: String) -> (r: Result<Program, ParseError>)
    ensures
        ({
            let c = Source { eof: eof_token(source_text@), name: source_name@ };
            match r {
                Ok(p) => {
                    &&& file(c, tokens_from(source_name@, source_text@, 0)) == Ok::<
                        Seq<TopLevelView>,
                        ParseErrorView,
                    >(p@.items)
                    &&& p.source_name == source_name
                    &&& p.source_text == source_text
                },
                Err(e) => file(c, tokens_from(source_name@, source_text@, 0)) == Err::<
                    Seq<TopLevelView>,
                    ParseErrorView,
                >(e@),
            }
        }),
{
    let mut parser = Parser::new(source_text.as_str(), source_name.as_str());
    let ghost c = parser.source();
    let ghost whole = file(c, parser.ahead());
    let mut items: Vec<TopLevel> = Vec::new();
    proof {
        if let Ok(more) = whole {
            assert(top_level_views(items@) + more =~= more);
        }
    }
    loop
        invariant
            parser.wf(),
            parser.source() == c,
            c == (Source { eof: eof_token(source_text@), name: source_name@ }),
            whole == file(c, tokens_from(source_name@, source_text@, 0)),
            whole == match file(c, parser.ahead()) {
                Ok(more) => Ok::<Seq<TopLevelView>, ParseErrorView>(top_level_views(items@) + more),
                Err(e) => Err(e),
            },
        decreases parser.ahead().len(),
    {
        let ghost done = top_level_views(items@);
        match parser.parse_toplevel() {
            Err(e) => {
                return Err(e);
            },
            Ok(None) => {
                assert(done + Seq::<TopLevelView>::empty() =~= done);
                return Ok(Program { top_level_items: items, source_name, source_text });
            },
            Ok(Some(x)) => {
                items.push(x);
                proof {
                    assert(top_level_views(items@) =~= done.push(x@));
                    if let Ok(more) = file(c, parser.ahead()) {
                        assert(done + (seq![x@] + more) =~= top_level_views(items@) + more);
                    }
                }
            },
        }
    }
}

} // verus!
