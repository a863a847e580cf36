//! Runs and their chains of calls.
use vstd::prelude::*;
use crate::dsl::ast::{chain_seq, ref_seq, FnRefView, QualifiedFnRef, Stmt, StmtView};
use crate::dsl::error::{ParseError, ParseErrorView};
use crate::dsl::grammar::{cur, fn_ref, run_chains, run_stmt};
use crate::dsl::parser::expr::end_of;
use crate::dsl::parser::Parser;
use crate::dsl::token::{format_token_type, token_name, TokenType};

verus! {

broadcast use vstd::string::group_string_axioms;

impl Parser {
    /// Read a function that a run refers to.
    fn parse_run_call(&mut self, qualified: bool) -> (r: Result<QualifiedFnRef, ParseError>)
        requires
            old(self).wf(),
        ensures
            final(self).follows(old(self), r is Ok),
            fn_ref(old(self).source(), old(self).ahead(), qualified) == (
                match r {
                    Ok(x) => Ok::<FnRefView, ParseErrorView>(x@),
                    Err(e) => Err(e@),
                },
                final(self).ahead(),
            ),
    {
        if !qualified {
            match &self.current_token().ty {
                TokenType::Ident(_) => {},
                ty => {
                    let e = self.error_found("expected function name in run block, found ", "");
                    proof {
                        reveal_strlit("");
                        let w = "expected function name in run block, found "@ + token_name(ty@);
                        assert(w + ""@ =~= w);
                    }
                    return Err(e);
                },
            }
        }
        let first = match self.parse_ident(
            "expected project namespace in run reference",
            "expected project namespace in run reference",
        ) {
            Ok(x) => x,
            Err(e) => {
                return Err(e);
            },
        };
        if !qualified && !self.at(TokenType::NamespaceSep) {
            let r = QualifiedFnRef { project: String::new(), function: first };
            assert(r@.project =~= Seq::<char>::empty());
            return Ok(r);
        }
        if let Err(e) = self.expect_with_context(TokenType::NamespaceSep, "in run reference") {
            return Err(e);
        }
        match self.parse_ident(
            "expected function name after `::` in run reference",
            "expected function name after `::` in run reference",
        ) {
            Ok(function) => Ok(QualifiedFnRef { project: first, function }),
            Err(e) => Err(e),
        }
    }

    /// Read the chains of a run, up to the closing brace.
    fn parse_chains(&mut self, qualified: bool) -> (r: Result<Vec<Vec<QualifiedFnRef>>, ParseError>)
        requires
            old(self).wf(),
        ensures
            final(self).follows(old(self), false),
            run_chains(old(self).source(), old(self).ahead(), Seq::empty(), qualified) == (
                match r {
                    Ok(x) => Ok::<Seq<Seq<FnRefView>>, ParseErrorView>(chain_seq(x@)),
                    Err(e) => Err(e@),
                },
                final(self).ahead(),
            ),
    {
        let ghost c = self.source();
        let ghost whole = run_chains(c, self.ahead(), Seq::empty(), qualified);
        let mut chains: Vec<Vec<QualifiedFnRef>> = Vec::new();
        let mut current: Vec<QualifiedFnRef> = Vec::new();
        proof {
            assert(ref_seq(current@) =~= Seq::<FnRefView>::empty());
            if let (Ok(more), v) = whole {
                assert(chain_seq(chains@) + more =~= more);
            }
        }
        while !self.at(TokenType::RBrace)
            invariant
                self.follows(old(self), false),
                self.source() == c,
                whole == run_chains(old(self).source(), old(self).ahead(), Seq::empty(), qualified),
                whole == match run_chains(c, self.ahead(), ref_seq(current@), qualified) {
                    (Ok(more), v) => (
                        Ok::<Seq<Seq<FnRefView>>, ParseErrorView>(chain_seq(chains@) + more),
                        v,
                    ),
                    (Err(e), v) => (Err(e), v),
                },
            decreases self.ahead().len(),
        {
            let ghost done = chain_seq(chains@);
            let ghost chain = ref_seq(current@);
            if self.at(TokenType::Eof) {
                return Err(
                    self.error(
                        "unexpected end of file in run declaration (expected '}')".to_owned(),
                    ),
                );
            }
            let call = match self.parse_run_call(qualified) {
                Ok(x) => x,
                Err(e) => {
                    return Err(e);
                },
            };
            let ghost callv = call@;
            current.push(call);
            assert(ref_seq(current@) =~= chain.push(callv));
            match &self.current_token().ty {
                TokenType::Arrow => {
                    self.advance();
                },
                TokenType::Semicolon => {
                    self.advance();
                    chains.push(current);
                    proof {
                        assert(chain_seq(chains@) =~= done.push(chain.push(callv)));
                        if let (Ok(more), v) = run_chains(
                            c,
                            self.ahead(),
                            Seq::empty(),
                            qualified,
                        ) {
                            assert(done + (seq![chain.push(callv)] + more) =~= chain_seq(chains@)
                                + more);
                        }
                    }
                    current = Vec::new();
                    assert(ref_seq(current@) =~= Seq::<FnRefView>::empty());
                },
                TokenType::RBrace => {},
                ty => {
                    let mut msg =
                        "expected `;`, `=>`, or `}` after run reference, found ".to_owned();
                    msg.push_str(format_token_type(ty).as_str());
                    return Err(self.error(msg));
                },
            }
        }
        let ghost done = chain_seq(chains@);
        if current.len() > 0 {
            let ghost last = ref_seq(current@);
            chains.push(current);
            assert(chain_seq(chains@) =~= done + seq![last]);
        } else {
            assert(chain_seq(chains@) + Seq::<Seq<FnRefView>>::empty() =~= chain_seq(chains@));
        }
        Ok(chains)
    }

    /// Read a run. References are calls `project::function`; where `qualified`
    /// is not set, the project may be left out.
    pub(crate) fn parse_run_decl(&mut self, qualified: bool) -> (r: Result<Stmt, ParseError>)
        requires
            old(self).wf(),
            cur(old(self).source(), old(self).ahead()).ty is Run,
        ensures
            final(self).follows(old(self), true),
            run_stmt(old(self).source(), old(self).ahead(), qualified) == (
                match r {
                    Ok(x) => Ok::<StmtView, ParseErrorView>(x@),
                    Err(e) => Err(e@),
                },
                final(self).ahead(),
            ),
    {
        let offset = self.current_token().offset;
        self.advance();
        let name = match self.parse_ident_name("run block", "expected run block name") {
            Ok(x) => x,
            Err(e) => {
                return Err(e);
            },
        };
        if let Err(e) = self.expect_with_context(TokenType::LBrace, "after run block name") {
            return Err(e);
        }
        let chains = match self.parse_chains(qualified) {
            Ok(x) => x,
            Err(e) => {
                return Err(e);
            },
        };
        let end = end_of(self.current_token());
        if let Err(e) = self.expect_with_context(TokenType::RBrace, "to close run block") {
            return Err(e);
        }
        self.pass_semicolon();
        Ok(Stmt::Run { name, chains, offset, len: end.saturating_sub(offset) })
    }
}

} // verus!
