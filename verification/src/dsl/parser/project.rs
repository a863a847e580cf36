//! Projects: their fields and the declarations in them.
use vstd::prelude::*;
use crate::dsl::ast::{stmt_views, ProjectField, Stmt, StmtView};
use crate::dsl::error::{ParseError, ParseErrorView};
use crate::dsl::grammar::{
    bracket_fields, cur, field_key, field_list, field_stmt, project_item, project_items,
    project_stmt, starts_field,
};
use crate::dsl::parser::Parser;
use crate::dsl::token::TokenType;

verus! {

broadcast use vstd::string::group_string_axioms;

impl Parser {
    /// Whether a field is ahead.
    fn is_field_start(&self) -> (r: bool)
        requires
            self.wf(),
        ensures
            r == starts_field(self.source(), self.ahead()),
    {
        match &self.current_token().ty {
            TokenType::Ident(s) => ProjectField::from_str(s.as_str()).is_ok(),
            _ => false,
        }
    }

    fn parse_field_key(&mut self) -> (r: Result<ProjectField, ParseError>)
        requires
            old(self).wf(),
        ensures
            final(self).follows(old(self), r is Ok),
            field_key(old(self).source(), old(self).ahead()) == (
                match r {
                    Ok(x) => Ok::<ProjectField, ParseErrorView>(x),
                    Err(e) => Err(e@),
                },
                final(self).ahead(),
            ),
    {
        let key = match &self.current_token().ty {
            TokenType::Ident(s) => s.clone(),
            _ => {
                return Err(self.error("expected project field name".to_owned()));
            },
        };
        self.advance();
        match ProjectField::from_str(key.as_str()) {
            Ok(field) => Ok(field),
            Err(_) => {
                let mut msg = "unknown project field: ".to_owned();
                msg.push_str(key.as_str());
                Err(self.error(msg))
            },
        }
    }

    /// Read a field.
    fn parse_field(&mut self) -> (r: Result<Stmt, ParseError>)
        requires
            old(self).wf(),
        ensures
            final(self).follows(old(self), r is Ok),
            field_stmt(old(self).source(), old(self).ahead()) == (
                match r {
                    Ok(x) => Ok::<StmtView, ParseErrorView>(x@),
                    Err(e) => Err(e@),
                },
                final(self).ahead(),
            ),
    {
        proof {
            reveal(field_stmt);
        }
        let offset = self.current_token().offset;
        let key = match self.parse_field_key() {
            Ok(x) => x,
            Err(e) => {
                return Err(e);
            },
        };
        if let Err(e) = self.expect_with_context(TokenType::Assign, "in project field") {
            return Err(e);
        }
        let value = match self.parse_expr() {
            Ok(x) => x,
            Err(e) => {
                return Err(e);
            },
        };
        self.pass_semicolon();
        let end = self.current_token().offset;
        Ok(Stmt::Field { key, value, offset, len: end.saturating_sub(offset) })
    }

    /// Read fields in brackets, up to the closing bracket.
    fn parse_bracket_fields(&mut self) -> (r: Result<Vec<Stmt>, ParseError>)
        requires
            old(self).wf(),
        ensures
            final(self).follows(old(self), false),
            bracket_fields(old(self).source(), old(self).ahead()) == (
                match r {
                    Ok(x) => Ok::<Seq<StmtView>, ParseErrorView>(stmt_views(x@)),
                    Err(e) => Err(e@),
                },
                final(self).ahead(),
            ),
    {
        let ghost c = self.source();
        let ghost whole = bracket_fields(c, self.ahead());
        let mut fields: Vec<Stmt> = Vec::new();
        proof {
            if let (Ok(more), v) = whole {
                assert(stmt_views(fields@) + more =~= more);
            }
        }
        while !self.at(TokenType::RBracket)
            invariant
                self.follows(old(self), false),
                self.source() == c,
                whole == bracket_fields(old(self).source(), old(self).ahead()),
                whole == match bracket_fields(c, self.ahead()) {
                    (Ok(more), v) => (
                        Ok::<Seq<StmtView>, ParseErrorView>(stmt_views(fields@) + more),
                        v,
                    ),
                    (Err(e), v) => (Err(e), v),
                },
            decreases self.ahead().len(),
        {
            let ghost done = stmt_views(fields@);
            match self.parse_field() {
                Err(e) => {
                    return Err(e);
                },
                Ok(field) => {
                    fields.push(field);
                    proof {
                        assert(stmt_views(fields@) =~= done.push(field@));
                        if let (Ok(more), v) = bracket_fields(c, self.ahead()) {
                            assert(done + (seq![field@] + more) =~= stmt_views(fields@) + more);
                        }
                    }
                },
            }
        }
        assert(stmt_views(fields@) + Seq::<StmtView>::empty() =~= stmt_views(fields@));
        Ok(fields)
    }

    /// Read the fields in brackets before the body, where there are any.
    fn parse_field_list(&mut self) -> (r: Result<Vec<Stmt>, ParseError>)
        requires
            old(self).wf(),
        ensures
            final(self).follows(old(self), false),
            field_list(old(self).source(), old(self).ahead()) == (
                match r {
                    Ok(x) => Ok::<Seq<StmtView>, ParseErrorView>(stmt_views(x@)),
                    Err(e) => Err(e@),
                },
                final(self).ahead(),
            ),
    {
        if !self.at(TokenType::LBracket) {
            let none: Vec<Stmt> = Vec::new();
            assert(stmt_views(none@) =~= Seq::<StmtView>::empty());
            return Ok(none);
        }
        self.advance();
        let fields = match self.parse_bracket_fields() {
            Ok(x) => x,
            Err(e) => {
                return Err(e);
            },
        };
        match self.expect_with_context(TokenType::RBracket, "to close project field list") {
            Ok(_) => Ok(fields),
            Err(e) => Err(e),
        }
    }

    /// Read a declaration in the body of a project.
    pub(crate) fn parse_project_body_stmt(&mut self) -> (r: Result<Stmt, ParseError>)
        requires
            old(self).wf(),
        ensures
            final(self).follows(old(self), r is Ok),
            project_item(old(self).source(), old(self).ahead()) == (
                match r {
                    Ok(x) => Ok::<StmtView, ParseErrorView>(x@),
                    Err(e) => Err(e@),
                },
                final(self).ahead(),
            ),
    {
        proof {
            reveal(project_item);
        }
        if let Err(e) = self.err_on_illegal_token() {
            return Err(e);
        }
        match &self.current_token().ty {
            TokenType::Var => self.parse_var_decl(),
            TokenType::Fn => self.parse_fn_decl(),
            TokenType::Run => self.parse_run_decl(false),
            TokenType::Use => self.parse_use(),
            _ => Err(self.unexpected_stmt_start_error("var, fn, or run")),
        }
    }

    /// Read the fields and declarations of a project, up to the closing brace.
    fn parse_project_items(&mut self) -> (r: Result<(Vec<Stmt>, Vec<Stmt>), ParseError>)
        requires
            old(self).wf(),
        ensures
            final(self).follows(old(self), false),
            project_items(old(self).source(), old(self).ahead()) == (
                match r {
                    Ok(x) => Ok::<(Seq<StmtView>, Seq<StmtView>), ParseErrorView>(
                        (stmt_views(x.0@), stmt_views(x.1@)),
                    ),
                    Err(e) => Err(e@),
                },
                final(self).ahead(),
            ),
    {
        let ghost c = self.source();
        let ghost whole = project_items(c, self.ahead());
        let mut fields: Vec<Stmt> = Vec::new();
        let mut body: Vec<Stmt> = Vec::new();
        proof {
            if let (Ok((f, b)), v) = whole {
                assert(stmt_views(fields@) + f =~= f);
                assert(stmt_views(body@) + b =~= b);
            }
        }
        while !self.at(TokenType::RBrace)
            invariant
                self.follows(old(self), false),
                self.source() == c,
                whole == project_items(old(self).source(), old(self).ahead()),
                whole == match project_items(c, self.ahead()) {
                    (Ok((f, b)), v) => (
                        Ok::<(Seq<StmtView>, Seq<StmtView>), ParseErrorView>(
                            (stmt_views(fields@) + f, stmt_views(body@) + b),
                        ),
                        v,
                    ),
                    (Err(e), v) => (Err(e), v),
                },
            decreases self.ahead().len(),
        {
            if self.is_field_start() {
                let ghost done = stmt_views(fields@);
                match self.parse_field() {
                    Err(e) => {
                        return Err(e);
                    },
                    Ok(field) => {
                        fields.push(field);
                        proof {
                            assert(stmt_views(fields@) =~= done.push(field@));
                            if let (Ok((f, b)), v) = project_items(c, self.ahead()) {
                                assert(done + (seq![field@] + f) =~= stmt_views(fields@) + f);
                            }
                        }
                    },
                }
            } else {
                let ghost done = stmt_views(body@);
                match self.parse_project_body_stmt() {
                    Err(e) => {
                        return Err(e);
                    },
                    Ok(s) => {
                        body.push(s);
                        proof {
                            assert(stmt_views(body@) =~= done.push(s@));
                            if let (Ok((f, b)), v) = project_items(c, self.ahead()) {
                                assert(done + (seq![s@] + b) =~= stmt_views(body@) + b);
                            }
                        }
                    },
                }
            }
        }
        proof {
            assert(stmt_views(fields@) + Seq::<StmtView>::empty() =~= stmt_views(fields@));
            assert(stmt_views(body@) + Seq::<StmtView>::empty() =~= stmt_views(body@));
        }
        Ok((fields, body))
    }

    /// Read a project.
    pub(crate) fn parse_project_decl(&mut self) -> (r: Result<Stmt, ParseError>)
        requires
            old(self).wf(),
            cur(old(self).source(), old(self).ahead()).ty is Pr,
        ensures
            final(self).follows(old(self), true),
            project_stmt(old(self).source(), old(self).ahead()) == (
                match r {
                    Ok(x) => Ok::<StmtView, ParseErrorView>(x@),
                    Err(e) => Err(e@),
                },
                final(self).ahead(),
            ),
    {
        self.advance();
        let name = match self.parse_ident_name("project", "expected project name") {
            Ok(x) => x,
            Err(e) => {
                return Err(e);
            },
        };
        let mut fields = match self.parse_field_list() {
            Ok(x) => x,
            Err(e) => {
                return Err(e);
            },
        };
        if let Err(e) = self.expect_with_context(TokenType::LBrace, "after project name") {
            return Err(e);
        }
        let (mut more, body) = match self.parse_project_items() {
            Ok(x) => x,
            Err(e) => {
                return Err(e);
            },
        };
        if let Err(e) = self.expect_with_context(TokenType::RBrace, "to close project body") {
            return Err(e);
        }
        self.pass_semicolon();
        let ghost listed = stmt_views(fields@);
        let ghost braced = stmt_views(more@);
        fields.append(&mut more);
        let s = Stmt::Project { name, fields, body };
        proof {
            assert(s@->fields =~= listed + braced);
            assert(s@->Project_body =~= stmt_views(body@));
        }
        Ok(s)
    }
}

} // verus!
