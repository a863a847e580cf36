//! Statements in the body of a function.
use vstd::prelude::*;
use crate::dsl::error::{ParseError, ParseErrorView};
use crate::dsl::fnstmt::{
    case_arm_views, fn_stmt_views, CaseArmView, CaseStmt, EnvBlockStmt, FnStmt, FnStmtView,
    VarDeclStmt,
};
use crate::dsl::grammar::{
    block, case_arm, case_arms, case_block, case_pattern, cur, env_block, env_pair, env_pairs,
    expected, simple_statement, statement, statements, var_type, variable_declaration,
};
use crate::dsl::parser::expr::parse_interpolation_parts;
use crate::dsl::parser::Parser;
use crate::dsl::syntax::{
    pair_views, CaseArm, CasePattern, CasePatternView, EnvPair, EnvPairView, Expr, ExprView,
    VarType,
};
use crate::dsl::token::{TokenType, TypeView};
use crate::text::same;

verus! {

broadcast use vstd::string::group_string_axioms;

impl Parser {
    /// Read a word, an expression and a semicolon: the expression.
    fn parse_simple(&mut self, context: &str) -> (r: Result<Expr, ParseError>)
        requires
            old(self).wf(),
            !(cur(old(self).source(), old(self).ahead()).ty is Eof),
        ensures
            final(self).follows(old(self), r is Ok),
            simple_statement(old(self).source(), old(self).ahead(), context@) == (
                match r {
                    Ok(x) => Ok::<ExprView, ParseErrorView>(x@),
                    Err(e) => Err(e@),
                },
                final(self).ahead(),
            ),
    {
        self.advance();
        let value = match self.parse_expr() {
            Ok(x) => x,
            Err(e) => {
                return Err(e);
            },
        };
        match self.expect_with_context(TokenType::Semicolon, context) {
            Ok(_) => Ok(value),
            Err(e) => Err(e),
        }
    }

    /// Read `log value;`.
    pub(crate) fn parse_log_stmt(&mut self) -> (r: Result<FnStmt, ParseError>)
        requires
            old(self).wf(),
            cur(old(self).source(), old(self).ahead()).ty is Log,
        ensures
            final(self).follows(old(self), r is Ok),
            statement(old(self).source(), old(self).ahead()) == (
                match r {
                    Ok(x) => Ok::<FnStmtView, ParseErrorView>(x@),
                    Err(e) => Err(e@),
                },
                final(self).ahead(),
            ),
    {
        match self.parse_simple("after `log`") {
            Ok(value) => Ok(FnStmt::Log(value)),
            Err(e) => Err(e),
        }
    }

    /// Read `exec value;`.
    pub(crate) fn parse_exec_stmt(&mut self) -> (r: Result<FnStmt, ParseError>)
        requires
            old(self).wf(),
            cur(old(self).source(), old(self).ahead()).ty is Exec,
        ensures
            final(self).follows(old(self), r is Ok),
            statement(old(self).source(), old(self).ahead()) == (
                match r {
                    Ok(x) => Ok::<FnStmtView, ParseErrorView>(x@),
                    Err(e) => Err(e@),
                },
                final(self).ahead(),
            ),
    {
        match self.parse_simple("after `exec`") {
            Ok(value) => Ok(FnStmt::Exec(value)),
            Err(e) => Err(e),
        }
    }

    /// Read `cd value;`.
    pub(crate) fn parse_cd_stmt(&mut self) -> (r: Result<FnStmt, ParseError>)
        requires
            old(self).wf(),
            cur(old(self).source(), old(self).ahead()).ty is Cd,
        ensures
            final(self).follows(old(self), r is Ok),
            statement(old(self).source(), old(self).ahead()) == (
                match r {
                    Ok(x) => Ok::<FnStmtView, ParseErrorView>(x@),
                    Err(e) => Err(e@),
                },
                final(self).ahead(),
            ),
    {
        match self.parse_simple("after `cd`") {
            Ok(value) => Ok(FnStmt::Cd(value)),
            Err(e) => Err(e),
        }
    }

    fn parse_var_type(&mut self) -> (r: Result<VarType, ParseError>)
        requires
            old(self).wf(),
        ensures
            final(self).follows(old(self), r is Ok),
            var_type(old(self).source(), old(self).ahead()) == (
                match r {
                    Ok(x) => Ok::<VarType, ParseErrorView>(x),
                    Err(e) => Err(e@),
                },
                final(self).ahead(),
            ),
    {
        match &self.current_token().ty {
            TokenType::StringKw => {
                self.advance();
                Ok(VarType::String)
            },
            TokenType::Shell => {
                self.advance();
                Ok(VarType::Shell)
            },
            _ => Err(self.error("expected 'string' or 'shell'".to_owned())),
        }
    }

    /// Read the declaration of a variable: its type, its name and its value.
    pub(crate) fn parse_var_decl_common(&mut self) -> (r: Result<
        (VarType, String, Expr),
        ParseError,
    >)
        requires
            old(self).wf(),
            cur(old(self).source(), old(self).ahead()).ty is Var,
        ensures
            final(self).follows(old(self), true),
            variable_declaration(old(self).source(), old(self).ahead()) == (
                match r {
                    Ok(p) => Ok::<(VarType, Seq<char>, ExprView), ParseErrorView>(
                        (p.0, p.1@, p.2@),
                    ),
                    Err(e) => Err(e@),
                },
                final(self).ahead(),
            ),
    {
        self.advance();
        let var_type = match self.parse_var_type() {
            Ok(x) => x,
            Err(e) => {
                return Err(e);
            },
        };
        let name = match self.parse_ident_name("variable", "expected variable name") {
            Ok(x) => x,
            Err(e) => {
                return Err(e);
            },
        };
        if let Err(e) = self.expect_with_context(TokenType::Assign, "in variable declaration") {
            return Err(e);
        }
        let value = match self.parse_expr() {
            Ok(x) => x,
            Err(e) => {
                return Err(e);
            },
        };
        if let Err(e) = self.expect_with_context(
            TokenType::Semicolon,
            "after variable declaration",
        ) {
            return Err(e);
        }
        Ok((var_type, name, value))
    }

    /// Read the declaration of a variable inside a function.
    pub(crate) fn parse_fn_var_decl(&mut self) -> (r: Result<FnStmt, ParseError>)
        requires
            old(self).wf(),
            cur(old(self).source(), old(self).ahead()).ty is Var,
        ensures
            final(self).follows(old(self), r is Ok),
            statement(old(self).source(), old(self).ahead()) == (
                match r {
                    Ok(x) => Ok::<FnStmtView, ParseErrorView>(x@),
                    Err(e) => Err(e@),
                },
                final(self).ahead(),
            ),
    {
        match self.parse_var_decl_common() {
            Ok((var_type, name, value)) => Ok(
                FnStmt::VarDecl(VarDeclStmt { var_type, name, value }),
            ),
            Err(e) => Err(e),
        }
    }

    fn parse_env_pair(&mut self) -> (r: Result<EnvPair, ParseError>)
        requires
            old(self).wf(),
        ensures
            final(self).follows(old(self), r is Ok),
            env_pair(old(self).source(), old(self).ahead()) == (
                match r {
                    Ok(x) => Ok::<EnvPairView, ParseErrorView>(x@),
                    Err(e) => Err(e@),
                },
                final(self).ahead(),
            ),
    {
        let key = match self.parse_ident(
            "expected identifier in env pair",
            "expected identifier in env pair",
        ) {
            Ok(x) => x,
            Err(e) => {
                return Err(e);
            },
        };
        if let Err(e) = self.expect_with_context(TokenType::Assign, "in env pair") {
            return Err(e);
        }
        match self.parse_expr() {
            Ok(value) => Ok(EnvPair { key, value }),
            Err(e) => Err(e),
        }
    }

    fn parse_env_pairs(&mut self) -> (r: Result<Vec<EnvPair>, ParseError>)
        requires
            old(self).wf(),
        ensures
            final(self).follows(old(self), false),
            env_pairs(old(self).source(), old(self).ahead()) == (
                match r {
                    Ok(x) => Ok::<Seq<EnvPairView>, ParseErrorView>(pair_views(x@)),
                    Err(e) => Err(e@),
                },
                final(self).ahead(),
            ),
    {
        let ghost c = self.source();
        let ghost whole = env_pairs(c, self.ahead());
        let mut pairs: Vec<EnvPair> = Vec::new();
        proof {
            if let (Ok(more), v) = whole {
                assert(pair_views(pairs@) + more =~= more);
            }
        }
        while !self.at(TokenType::RBracket)
            invariant
                self.follows(old(self), false),
                self.source() == c,
                whole == env_pairs(old(self).source(), old(self).ahead()),
                whole == match env_pairs(c, self.ahead()) {
                    (Ok(more), v) => (
                        Ok::<Seq<EnvPairView>, ParseErrorView>(pair_views(pairs@) + more),
                        v,
                    ),
                    (Err(e), v) => (Err(e), v),
                },
            decreases self.ahead().len(),
        {
            let ghost done = pair_views(pairs@);
            match self.parse_env_pair() {
                Err(e) => {
                    return Err(e);
                },
                Ok(pair) => {
                    pairs.push(pair);
                    proof {
                        assert(pair_views(pairs@) =~= done.push(pair@));
                        if let (Ok(more), v) = env_pairs(c, self.ahead()) {
                            assert(done + (seq![pair@] + more) =~= pair_views(pairs@) + more);
                        }
                    }
                },
            }
        }
        assert(pair_views(pairs@) + Seq::<EnvPairView>::empty() =~= pair_views(pairs@));
        Ok(pairs)
    }

    /// Read a body in braces.
    pub(crate) fn parse_block(&mut self, open: &str, close: &str) -> (r: Result<
        Vec<FnStmt>,
        ParseError,
    >)
        requires
            old(self).wf(),
        ensures
            final(self).follows(old(self), r is Ok),
            block(old(self).source(), old(self).ahead(), open@, close@) == (
                match r {
                    Ok(x) => Ok::<Seq<FnStmtView>, ParseErrorView>(fn_stmt_views(x@)),
                    Err(e) => Err(e@),
                },
                final(self).ahead(),
            ),
        decreases old(self).ahead().len(), 3int,
    {
        if let Err(e) = self.expect_with_context(TokenType::LBrace, open) {
            return Err(e);
        }
        let ghost c = self.source();
        let ghost whole = statements(c, self.ahead());
        let ghost first = *self;
        let mut body: Vec<FnStmt> = Vec::new();
        proof {
            if let (Ok(more), v) = whole {
                assert(fn_stmt_views(body@) + more =~= more);
            }
        }
        while !self.at(TokenType::RBrace)
            invariant
                self.follows(&first, false),
                first.follows(old(self), true),
                self.source() == c,
                c == old(self).source(),
                block(c, old(self).ahead(), open@, close@) == match whole {
                    (Err(e), v) => (Err(e), v),
                    (Ok(body), v) => match expected(
                        c,
                        v,
                        TypeView::RBrace,
                        close@,
                    ) {
                        (Err(e), w) => (Err(e), w),
                        (Ok(_), w) => (Ok(body), w),
                    },
                },
                whole == match statements(c, self.ahead()) {
                    (Ok(more), v) => (
                        Ok::<Seq<FnStmtView>, ParseErrorView>(fn_stmt_views(body@) + more),
                        v,
                    ),
                    (Err(e), v) => (Err(e), v),
                },
            decreases self.ahead().len(),
        {
            let ghost done = fn_stmt_views(body@);
            match self.parse_fn_stmt() {
                Err(e) => {
                    return Err(e);
                },
                Ok(s) => {
                    body.push(s);
                    proof {
                        assert(fn_stmt_views(body@) =~= done.push(s@));
                        if let (Ok(more), v) = statements(c, self.ahead()) {
                            assert(done + (seq![s@] + more) =~= fn_stmt_views(body@) + more);
                        }
                    }
                },
            }
        }
        assert(fn_stmt_views(body@) + Seq::<FnStmtView>::empty() =~= fn_stmt_views(body@));
        match self.expect_with_context(TokenType::RBrace, close) {
            Ok(_) => Ok(body),
            Err(e) => Err(e),
        }
    }

    /// Read an `env` block.
    pub(crate) fn parse_env_block(&mut self) -> (r: Result<FnStmt, ParseError>)
        requires
            old(self).wf(),
            cur(old(self).source(), old(self).ahead()).ty is Env,
        ensures
            final(self).follows(old(self), r is Ok),
            env_block(old(self).source(), old(self).ahead()) == (
                match r {
                    Ok(x) => Ok::<FnStmtView, ParseErrorView>(x@),
                    Err(e) => Err(e@),
                },
                final(self).ahead(),
            ),
        decreases old(self).ahead().len(), 0int,
    {
        self.advance();
        if let Err(e) = self.expect_with_context(TokenType::LBracket, "after `env`") {
            return Err(e);
        }
        let pairs = match self.parse_env_pairs() {
            Ok(x) => x,
            Err(e) => {
                return Err(e);
            },
        };
        if let Err(e) = self.expect_with_context(TokenType::RBracket, "to close env pairs") {
            return Err(e);
        }
        let body = match self.parse_block("to open env block body", "to close env block body") {
            Ok(x) => x,
            Err(e) => {
                return Err(e);
            },
        };
        if let Err(e) = self.expect_with_context(TokenType::Semicolon, "after env block") {
            return Err(e);
        }
        let s = FnStmt::EnvBlock(EnvBlockStmt { pairs, body });
        assert(s@->EnvBlock_body =~= fn_stmt_views(body@));
        Ok(s)
    }

    /// Read the pattern of an arm.
    fn parse_case_pattern(&mut self) -> (r: Result<CasePattern, ParseError>)
        requires
            old(self).wf(),
        ensures
            final(self).follows(old(self), r is Ok),
            case_pattern(old(self).source(), old(self).ahead()) == (
                match r {
                    Ok(x) => Ok::<CasePatternView, ParseErrorView>(x@),
                    Err(e) => Err(e@),
                },
                final(self).ahead(),
            ),
    {
        let tok = self.current_token().duplicate();
        match &tok.ty {
            TokenType::Dollar => match self.parse_dollar_var_name(
                "expected identifier after `$` in case pattern",
            ) {
                Err(e) => Err(e),
                Ok((namespace, name, end)) => Ok(
                    CasePattern::VarRef {
                        name,
                        namespace,
                        offset: tok.offset,
                        len: end.saturating_sub(tok.offset),
                        source_name: self.name(),
                    },
                ),
            },
            TokenType::Backtick(content) => {
                self.advance();
                match parse_interpolation_parts(content.as_str(), tok.offset) {
                    Err(e) => Err(e),
                    Ok(parts) => Ok(
                        CasePattern::Literal {
                            parts,
                            offset: tok.offset,
                            len: tok.len,
                            source_name: self.name(),
                        },
                    ),
                }
            },
            ty => {
                if let TokenType::Ident(s) = ty {
                    if same(s.as_str(), "_") {
                        self.advance();
                        return Ok(CasePattern::Default);
                    }
                }
                Err(
                    self.error_found(
                        "expected pattern before ",
                        "; are you missing a case arm pattern?",
                    ),
                )
            },
        }
    }

    fn parse_case_arm(&mut self) -> (r: Result<CaseArm, ParseError>)
        requires
            old(self).wf(),
        ensures
            final(self).follows(old(self), r is Ok),
            case_arm(old(self).source(), old(self).ahead()) == (
                match r {
                    Ok(x) => Ok::<CaseArmView, ParseErrorView>(x@),
                    Err(e) => Err(e@),
                },
                final(self).ahead(),
            ),
        decreases old(self).ahead().len(), 0int,
    {
        let pattern = match self.parse_case_pattern() {
            Ok(x) => x,
            Err(e) => {
                return Err(e);
            },
        };
        let body = match self.parse_block("after case pattern", "to close case arm body") {
            Ok(x) => x,
            Err(e) => {
                return Err(e);
            },
        };
        if let Err(e) = self.expect_with_context(TokenType::Semicolon, "after case arm") {
            return Err(e);
        }
        let arm = CaseArm { pattern, body };
        assert(arm@.body =~= fn_stmt_views(body@));
        Ok(arm)
    }

    fn parse_case_arms(&mut self) -> (r: Result<Vec<CaseArm>, ParseError>)
        requires
            old(self).wf(),
        ensures
            final(self).follows(old(self), false),
            case_arms(old(self).source(), old(self).ahead()) == (
                match r {
                    Ok(x) => Ok::<Seq<CaseArmView>, ParseErrorView>(case_arm_views(x@)),
                    Err(e) => Err(e@),
                },
                final(self).ahead(),
            ),
        decreases old(self).ahead().len(), 1int,
    {
        let ghost c = self.source();
        let ghost whole = case_arms(c, self.ahead());
        let mut scopes: Vec<CaseArm> = Vec::new();
        proof {
            if let (Ok(more), v) = whole {
                assert(case_arm_views(scopes@) + more =~= more);
            }
        }
        while !self.at(TokenType::RBrace)
            invariant
                self.follows(old(self), false),
                self.source() == c,
                whole == case_arms(old(self).source(), old(self).ahead()),
                whole == match case_arms(c, self.ahead()) {
                    (Ok(more), v) => (
                        Ok::<Seq<CaseArmView>, ParseErrorView>(case_arm_views(scopes@) + more),
                        v,
                    ),
                    (Err(e), v) => (Err(e), v),
                },
            decreases self.ahead().len(),
        {
            let ghost done = case_arm_views(scopes@);
            match self.parse_case_arm() {
                Err(e) => {
                    return Err(e);
                },
                Ok(arm) => {
                    scopes.push(arm);
                    proof {
                        assert(case_arm_views(scopes@) =~= done.push(arm@));
                        if let (Ok(more), v) = case_arms(c, self.ahead()) {
                            assert(done + (seq![arm@] + more) =~= case_arm_views(scopes@) + more);
                        }
                    }
                },
            }
        }
        assert(case_arm_views(scopes@) + Seq::<CaseArmView>::empty() =~= case_arm_views(scopes@));
        Ok(scopes)
    }

    /// Read a `case` block.
    pub(crate) fn parse_case_stmt(&mut self) -> (r: Result<FnStmt, ParseError>)
        requires
            old(self).wf(),
            cur(old(self).source(), old(self).ahead()).ty is Case,
        ensures
            final(self).follows(old(self), r is Ok),
            case_block(old(self).source(), old(self).ahead()) == (
                match r {
                    Ok(x) => Ok::<FnStmtView, ParseErrorView>(x@),
                    Err(e) => Err(e@),
                },
                final(self).ahead(),
            ),
        decreases old(self).ahead().len(), 0int,
    {
        self.advance();
        let condition = match self.parse_expr() {
            Ok(x) => x,
            Err(e) => {
                return Err(e);
            },
        };
        if let Err(e) = self.expect_with_context(TokenType::LBrace, "to open case arms") {
            return Err(e);
        }
        let scopes = match self.parse_case_arms() {
            Ok(x) => x,
            Err(e) => {
                return Err(e);
            },
        };
        if let Err(e) = self.expect_with_context(TokenType::RBrace, "to close case block") {
            return Err(e);
        }
        if let Err(e) = self.expect_with_context(TokenType::Semicolon, "after case block") {
            return Err(e);
        }
        let s = FnStmt::Case(CaseStmt { condition, scopes });
        assert(s@->Case_scopes =~= case_arm_views(scopes@));
        Ok(s)
    }

    /// Read a statement in the body of a function.
    pub(crate) fn parse_fn_stmt(&mut self) -> (r: Result<FnStmt, ParseError>)
        requires
            old(self).wf(),
        ensures
            final(self).follows(old(self), r is Ok),
            statement(old(self).source(), old(self).ahead()) == (
                match r {
                    Ok(x) => Ok::<FnStmtView, ParseErrorView>(x@),
                    Err(e) => Err(e@),
                },
                final(self).ahead(),
            ),
        decreases old(self).ahead().len(), 1int,
    {
        if let Err(e) = self.err_on_illegal_token() {
            return Err(e);
        }
        match &self.current_token().ty {
            TokenType::Log => self.parse_log_stmt(),
            TokenType::Exec => self.parse_exec_stmt(),
            TokenType::Cd => self.parse_cd_stmt(),
            TokenType::Var => self.parse_fn_var_decl(),
            TokenType::Env => self.parse_env_block(),
            TokenType::Case => self.parse_case_stmt(),
            TokenType::Semicolon => Err(
                self.error("unexpected `;` (empty statement)".to_owned()),
            ),
            _ => Err(self.unexpected_stmt_start_error("log, exec, cd, var, env, or case")),
        }
    }
}

} // verus!
