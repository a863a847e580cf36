//! Declarations outside of projects: variables, functions, settings and blocks.
use vstd::prelude::*;
use crate::dsl::ast::{name_seq, Stmt, StmtView};
use crate::dsl::error::{ParseError, ParseErrorView};
use crate::dsl::grammar::{
    cur, error_here, expected, fn_names, fn_stmt, name_block, par_stmt, rest, sanctuary_stmt, seq_stmt, shell_stmt,
    skip_semicolon, use_stmt, var_stmt,
};
use crate::dsl::parser::Parser;
use crate::dsl::token::{token_name, TokenType, TypeView};
use crate::text::same;

verus! {

broadcast use vstd::string::group_string_axioms;

impl Parser {
    /// Go on past a semicolon, where one is ahead.
    pub(crate) fn pass_semicolon(&mut self)
        requires
            old(self).wf(),
        ensures
            final(self).follows(old(self), false),
            final(self).ahead() == skip_semicolon(old(self).source(), old(self).ahead()),
    {
        if self.at(TokenType::Semicolon) {
            self.advance();
        }
    }

    /// Read the declaration of a variable.
    pub(crate) fn parse_var_decl(&mut self) -> (r: Result<Stmt, ParseError>)
        requires
            old(self).wf(),
            cur(old(self).source(), old(self).ahead()).ty is Var,
        ensures
            final(self).follows(old(self), true),
            var_stmt(old(self).source(), old(self).ahead()) == (
                match r {
                    Ok(x) => Ok::<StmtView, ParseErrorView>(x@),
                    Err(e) => Err(e@),
                },
                final(self).ahead(),
            ),
    {
        let offset = self.current_token().offset;
        let len = self.current_token().len;
        match self.parse_var_decl_common() {
            Ok((var_type, name, value)) => Ok(Stmt::Var { var_type, name, value, offset, len }),
            Err(e) => Err(e),
        }
    }

    /// Read a function.
    pub(crate) fn parse_fn_decl(&mut self) -> (r: Result<Stmt, ParseError>)
        requires
            old(self).wf(),
            cur(old(self).source(), old(self).ahead()).ty is Fn,
        ensures
            final(self).follows(old(self), true),
            fn_stmt(old(self).source(), old(self).ahead()) == (
                match r {
                    Ok(x) => Ok::<StmtView, ParseErrorView>(x@),
                    Err(e) => Err(e@),
                },
                final(self).ahead(),
            ),
    {
        let offset = self.current_token().offset;
        let len = self.current_token().len;
        self.advance();
        let name = match self.parse_ident_name("function", "expected function name") {
            Ok(x) => x,
            Err(e) => {
                return Err(e);
            },
        };
        match self.parse_block("after function name", "to close function body") {
            Ok(body) => Ok(Stmt::Fn { name, body, offset, len }),
            Err(e) => Err(e),
        }
    }

    /// Read the application of a function to a project.
    pub(crate) fn parse_use(&mut self) -> (r: Result<Stmt, ParseError>)
        requires
            old(self).wf(),
            cur(old(self).source(), old(self).ahead()).ty is Use,
        ensures
            final(self).follows(old(self), true),
            use_stmt(old(self).source(), old(self).ahead()) == (
                match r {
                    Ok(x) => Ok::<StmtView, ParseErrorView>(x@),
                    Err(e) => Err(e@),
                },
                final(self).ahead(),
            ),
    {
        let offset = self.current_token().offset;
        let len = self.current_token().len;
        self.advance();
        let function = match self.parse_ident_name("function", "expected function name") {
            Ok(x) => x,
            Err(e) => {
                return Err(e);
            },
        };
        let mut alias: Option<String> = None;
        let has_alias = match &self.current_token().ty {
            TokenType::Ident(s) => same(s.as_str(), "as"),
            _ => false,
        };
        if has_alias {
            self.advance();
            match self.parse_ident_name("alias", "expected alias name") {
                Ok(x) => {
                    alias = Some(x);
                },
                Err(e) => {
                    return Err(e);
                },
            }
        }
        if let Err(e) = self.expect_with_context(TokenType::Semicolon, "after `use`") {
            return Err(e);
        }
        Ok(Stmt::Use { function, alias, offset, len, source_name: self.name() })
    }

    /// Read the shell.
    pub(crate) fn parse_shell_decl(&mut self) -> (r: Result<Stmt, ParseError>)
        requires
            old(self).wf(),
            cur(old(self).source(), old(self).ahead()).ty is Shell,
        ensures
            final(self).follows(old(self), true),
            shell_stmt(old(self).source(), old(self).ahead()) == (
                match r {
                    Ok(x) => Ok::<StmtView, ParseErrorView>(x@),
                    Err(e) => Err(e@),
                },
                final(self).ahead(),
            ),
    {
        self.advance();
        if let Err(e) = self.expect_with_context(TokenType::Assign, "after `shell`") {
            return Err(e);
        }
        let value = match &self.current_token().ty {
            TokenType::Backtick(s) => s.clone(),
            ty => {
                let e = self.error_found("expected backtick string, found ", "");
                proof {
                    reveal_strlit("");
                    let w = "expected backtick string, found "@ + token_name(ty@);
                    assert(w + ""@ =~= w);
                }
                return Err(e);
            },
        };
        self.advance();
        match self.expect_with_context(TokenType::Semicolon, "after shell declaration") {
            Ok(_) => Ok(Stmt::Shell { value }),
            Err(e) => Err(e),
        }
    }

    /// Read the sanctuary.
    pub(crate) fn parse_sanctuary_decl(&mut self) -> (r: Result<Stmt, ParseError>)
        requires
            old(self).wf(),
            cur(old(self).source(), old(self).ahead()).ty is Sanctuary,
        ensures
            final(self).follows(old(self), true),
            sanctuary_stmt(old(self).source(), old(self).ahead()) == (
                match r {
                    Ok(x) => Ok::<StmtView, ParseErrorView>(x@),
                    Err(e) => Err(e@),
                },
                final(self).ahead(),
            ),
    {
        self.advance();
        if let Err(e) = self.expect_with_context(TokenType::Assign, "after `sanctuary`") {
            return Err(e);
        }
        let value = match self.parse_expr() {
            Ok(x) => x,
            Err(e) => {
                return Err(e);
            },
        };
        match self.expect_with_context(TokenType::Semicolon, "after sanctuary declaration") {
            Ok(_) => Ok(Stmt::Sanctuary { value }),
            Err(e) => Err(e),
        }
    }

    /// Read the name of a function and its semicolon in a `seq` or `par` block.
    fn parse_block_fn_name(&mut self) -> (r: Result<String, ParseError>)
        requires
            old(self).wf(),
        ensures
            final(self).follows(old(self), r is Ok),
            match cur(old(self).source(), old(self).ahead()).ty {
                TypeView::Ident(name) => expected(
                    old(self).source(),
                    rest(old(self).ahead()),
                    TypeView::Semicolon,
                    "after function name"@,
                ) == (
                    match r {
                        Ok(_) => Ok::<(), ParseErrorView>(()),
                        Err(e) => Err(e@),
                    },
                    final(self).ahead(),
                ) && (r matches Ok(x) ==> x@ == name),
                other => final(self).ahead() == old(self).ahead() && r is Err && r->Err_0@
                    == error_here(
                    old(self).source(),
                    old(self).ahead(),
                    "expected function name in seq/par, found "@ + token_name(other),
                ),
            },
    {
        let name = match &self.current_token().ty {
            TokenType::Ident(s) => s.clone(),
            ty => {
                let e = self.error_found("expected function name in seq/par, found ", "");
                proof {
                    reveal_strlit("");
                    let w = "expected function name in seq/par, found "@ + token_name(ty@);
                    assert(w + ""@ =~= w);
                }
                return Err(e);
            },
        };
        self.advance();
        match self.expect_with_context(TokenType::Semicolon, "after function name") {
            Ok(_) => Ok(name),
            Err(e) => Err(e),
        }
    }

    fn parse_fn_names(&mut self, eof: &str) -> (r: Result<Vec<String>, ParseError>)
        requires
            old(self).wf(),
        ensures
            final(self).follows(old(self), false),
            fn_names(old(self).source(), old(self).ahead(), eof@) == (
                match r {
                    Ok(x) => Ok::<Seq<Seq<char>>, ParseErrorView>(name_seq(x@)),
                    Err(e) => Err(e@),
                },
                final(self).ahead(),
            ),
    {
        let ghost c = self.source();
        let ghost whole = fn_names(c, self.ahead(), eof@);
        let mut fns: Vec<String> = Vec::new();
        proof {
            if let (Ok(more), v) = whole {
                assert(name_seq(fns@) + more =~= more);
            }
        }
        while !self.at(TokenType::RBrace)
            invariant
                self.follows(old(self), false),
                self.source() == c,
                whole == fn_names(old(self).source(), old(self).ahead(), eof@),
                whole == match fn_names(c, self.ahead(), eof@) {
                    (Ok(more), v) => (
                        Ok::<Seq<Seq<char>>, ParseErrorView>(name_seq(fns@) + more),
                        v,
                    ),
                    (Err(e), v) => (Err(e), v),
                },
            decreases self.ahead().len(),
        {
            let ghost done = name_seq(fns@);
            if self.at(TokenType::Eof) {
                return Err(self.error(eof.to_owned()));
            }
            match self.parse_block_fn_name() {
                Err(e) => {
                    return Err(e);
                },
                Ok(name) => {
                    fns.push(name);
                    proof {
                        assert(name_seq(fns@) =~= done.push(name@));
                        if let (Ok(more), v) = fn_names(c, self.ahead(), eof@) {
                            assert(done + (seq![name@] + more) =~= name_seq(fns@) + more);
                        }
                    }
                },
            }
        }
        assert(name_seq(fns@) + Seq::<Seq<char>>::empty() =~= name_seq(fns@));
        Ok(fns)
    }

    fn parse_name_block(
        &mut self,
        kind: &str,
        fallback: &str,
        open: &str,
        eof: &str,
        close: &str,
    ) -> (r: Result<(String, Vec<String>), ParseError>)
        requires
            old(self).wf(),
            !(cur(old(self).source(), old(self).ahead()).ty is Eof),
        ensures
            final(self).follows(old(self), true),
            name_block(
                old(self).source(),
                old(self).ahead(),
                kind@,
                fallback@,
                open@,
                eof@,
                close@,
            ) == (
                match r {
                    Ok(x) => Ok::<(Seq<char>, Seq<Seq<char>>), ParseErrorView>(
                        (x.0@, name_seq(x.1@)),
                    ),
                    Err(e) => Err(e@),
                },
                final(self).ahead(),
            ),
    {
        self.advance();
        let name = match self.parse_ident_name(kind, fallback) {
            Ok(x) => x,
            Err(e) => {
                return Err(e);
            },
        };
        if let Err(e) = self.expect_with_context(TokenType::LBrace, open) {
            return Err(e);
        }
        let fns = match self.parse_fn_names(eof) {
            Ok(x) => x,
            Err(e) => {
                return Err(e);
            },
        };
        match self.expect_with_context(TokenType::RBrace, close) {
            Ok(_) => Ok((name, fns)),
            Err(e) => Err(e),
        }
    }

    /// Read a `seq` block.
    pub(crate) fn parse_seq_decl(&mut self) -> (r: Result<Stmt, ParseError>)
        requires
            old(self).wf(),
            cur(old(self).source(), old(self).ahead()).ty is SeqKw,
        ensures
            final(self).follows(old(self), true),
            seq_stmt(old(self).source(), old(self).ahead()) == (
                match r {
                    Ok(x) => Ok::<StmtView, ParseErrorView>(x@),
                    Err(e) => Err(e@),
                },
                final(self).ahead(),
            ),
    {
        match self.parse_name_block(
            "sequence",
            "expected sequence name",
            "after sequence name",
            "unexpected end of file in seq declaration (expected '}')",
            "to close sequence body",
        ) {
            Ok((name, fns)) => Ok(Stmt::SeqBlock { name, fns }),
            Err(e) => Err(e),
        }
    }

    /// Read a `par` block.
    pub(crate) fn parse_par_decl(&mut self) -> (r: Result<Stmt, ParseError>)
        requires
            old(self).wf(),
            cur(old(self).source(), old(self).ahead()).ty is ParKw,
        ensures
            final(self).follows(old(self), true),
            par_stmt(old(self).source(), old(self).ahead()) == (
                match r {
                    Ok(x) => Ok::<StmtView, ParseErrorView>(x@),
                    Err(e) => Err(e@),
                },
                final(self).ahead(),
            ),
    {
        match self.parse_name_block(
            "parallel block",
            "expected parallel block name",
            "after parallel block name",
            "unexpected end of file in par declaration (expected '}')",
            "to close parallel block body",
        ) {
            Ok((name, fns)) => Ok(Stmt::ParBlock { name, fns }),
            Err(e) => Err(e),
        }
    }
}

} // verus!
