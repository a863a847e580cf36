//! Expressions: texts in backticks and references to variables.
use vstd::prelude::*;
use crate::dsl::error::{ParseError, ParseErrorView, SourceSpan};
use crate::dsl::grammar::{
    closing_brace, cur, expression, literal, pieces, reference, rest, separator_at, token_end,
    variable,
};
use crate::dsl::lexer::{clip, until};
use crate::dsl::parser::Parser;
use crate::dsl::syntax::{part_views, Expr, ExprView, InterpolationPart, PartView};
use crate::dsl::token::{token_name, Token, TokenType};
use crate::text::{byte_len, chars_of, lemma_byte_len_next, same, text_of};

verus! {

broadcast use vstd::string::group_string_axioms;

/// The first position from `from` on at which `::` stands, or the end.
fn find_separator(chars: &Vec<char>, from: usize, to: usize, start: usize) -> (r: usize)
    requires
        from <= start <= to <= chars@.len(),
    ensures
        start <= r <= to,
        r - from == separator_at(chars@.subrange(from as int, to as int), start - from),
{
    let ghost s = chars@.subrange(from as int, to as int);
    let mut i: usize = start;
    while i < to && to - i > 1
        invariant
            from <= start <= i <= to <= chars@.len(),
            s == chars@.subrange(from as int, to as int),
            separator_at(s, start - from) == separator_at(s, i - from),
        decreases to - i,
    {
        if chars[i] == ':' && chars[i + 1] == ':' {
            return i;
        }
        i += 1;
    }
    to
}

/// The variable that the characters from `from` up to `to` name.
fn variable_part(chars: &Vec<char>, from: usize, to: usize) -> (r: Result<InterpolationPart, String>)
    requires
        from <= to <= chars@.len(),
    ensures
        variable(chars@.subrange(from as int, to as int)) == match r {
            Ok(p) => Ok::<PartView, Seq<char>>(p@),
            Err(e) => Err(e@),
        },
{
    let ghost name = chars@.subrange(from as int, to as int);
    if from == to {
        return Err("empty variable name in template".to_owned());
    }
    let sep = find_separator(chars, from, to, from);
    if sep == to {
        let part = InterpolationPart {
            is_var: true,
            namespace: String::new(),
            value: text_of(chars, from, to),
        };
        assert(part@.namespace =~= Seq::<char>::empty());
        return Ok(part);
    }
    if sep == from || to - sep <= 2 {
        return Err("empty variable name in template".to_owned());
    }
    if find_separator(chars, from, to, sep + 2) < to {
        return Err("nested namespace qualifier `::` is not allowed".to_owned());
    }
    let part = InterpolationPart {
        is_var: true,
        namespace: text_of(chars, from, sep),
        value: text_of(chars, sep + 2, to),
    };
    proof {
        assert(part@.namespace =~= name.take(sep - from));
        assert(part@.value =~= name.skip(sep - from + 2));
    }
    Ok(part)
}

fn push_literal(parts: &mut Vec<InterpolationPart>, text: String)
    ensures
        part_views(final(parts)@) == part_views(old(parts)@) + literal(text@),
{
    let ghost before = part_views(parts@);
    if !text.as_str().is_empty() {
        parts.push(InterpolationPart { is_var: false, namespace: String::new(), value: text });
        assert(parts@.last()@.namespace =~= Seq::<char>::empty());
    }
    assert(part_views(parts@) =~= before + literal(text@));
}

/// Cut the text of a token at `offset` into literal text and variables. A
/// variable is written `${name}` or `${namespace::name}`.
pub fn parse_interpolation_parts(content: &str, offset: usize) -> (r: Result<
    Vec<InterpolationPart>,
    ParseError,
>)
    ensures
        pieces(content@, 0, Seq::empty(), offset) == match r {
            Ok(v) => Ok::<Seq<PartView>, ParseErrorView>(part_views(v@)),
            Err(e) => Err(e@),
        },
{
    let chars = chars_of(content);
    let total = crate::text::byte_count(content);
    let mut parts: Vec<InterpolationPart> = Vec::new();
    let mut current = String::new();
    let mut i: usize = 0;
    let mut bytes: usize = 0;
    let ghost s = content@;
    proof {
        assert(current@ =~= Seq::<char>::empty());
        assert(s.take(0) =~= Seq::<char>::empty());
        if let Ok(more) = pieces(s, 0, Seq::empty(), offset) {
            assert(part_views(parts@) + more =~= more);
        }
    }
    while i < chars.len()
        invariant
            chars@ == s,
            s == content@,
            i <= s.len(),
            total == byte_len(s),
            bytes == byte_len(s.take(i as int)),
            pieces(s, 0, Seq::empty(), offset) == match pieces(s, i as int, current@, offset) {
                Ok(more) => Ok::<Seq<PartView>, ParseErrorView>(part_views(parts@) + more),
                Err(e) => Err(e),
            },
        decreases s.len() - i,
    {
        let ghost at = i as int;
        let c = chars[i];
        if c == '$' && chars.len() - i > 1 && chars[i + 1] == '{' {
            let start: usize = i + 2;
            let mut j: usize = start;
            while j < chars.len() && chars[j] != '}'
                invariant
                    chars@ == s,
                    start <= j <= s.len(),
                    until(s, start as int, closing_brace()) == until(s, j as int, closing_brace()),
                decreases s.len() - j,
            {
                j += 1;
            }
            assert(until(s, at + 2, closing_brace()) == j);
            let here = offset.saturating_add(1).saturating_add(bytes);
            assert(here == clip((offset + 1 + byte_len(s.take(at))) as nat));
            let span = SourceSpan { offset: here, len: 3 };
            if j >= chars.len() {
                return Err(ParseError::new(span, "unclosed variable interpolation".to_owned()));
            }
            let part = match variable_part(&chars, start, j) {
                Ok(part) => part,
                Err(msg) => {
                    return Err(ParseError::new(span, msg));
                },
            };
            let ghost done = part_views(parts@);
            let ghost text = current@;
            push_literal(&mut parts, current);
            parts.push(part);
            current = String::new();
            let ghost old_i = i;
            let mut k: usize = i;
            while k < j + 1
                invariant
                    chars@ == s,
                    k <= j + 1 <= s.len(),
                    total == byte_len(s),
                    bytes == byte_len(s.take(k as int)),
                decreases j + 1 - k,
            {
                proof {
                    lemma_byte_len_next(s, k as int);
                }
                bytes = bytes + chars[k].len_utf8();
                k += 1;
            }
            i = j + 1;
            proof {
                assert(current@ =~= Seq::<char>::empty());
                assert(part_views(parts@) =~= done + literal(text) + seq![part@]);
                if let Ok(more) = pieces(s, i as int, Seq::empty(), offset) {
                    assert(done + (literal(text) + seq![part@] + more) =~= part_views(parts@)
                        + more);
                }
            }
        } else {
            proof {
                lemma_byte_len_next(s, at);
            }
            bytes = bytes + c.len_utf8();
            current.push(c);
            i += 1;
        }
    }
    push_literal(&mut parts, current);
    Ok(parts)
}

/// Where a token ends.
pub(crate) fn end_of(tok: &Token) -> (r: usize)
    ensures
        r == token_end(tok@),
{
    tok.offset.saturating_add(tok.len)
}

impl Parser {
    /// Read a reference to a variable, from the `$` on: the namespace, the name,
    /// and where it ends.
    pub(crate) fn parse_dollar_var_name(&mut self, msg: &str) -> (r: Result<
        (String, String, usize),
        ParseError,
    >)
        requires
            old(self).wf(),
            cur(old(self).source(), old(self).ahead()).ty is Dollar,
        ensures
            final(self).follows(old(self), r is Ok),
            reference(old(self).source(), rest(old(self).ahead()), msg@) == (
                match r {
                    Ok(p) => Ok::<(Seq<char>, Seq<char>, usize), ParseErrorView>(
                        (p.0@, p.1@, p.2),
                    ),
                    Err(e) => Err(e@),
                },
                final(self).ahead(),
            ),
    {
        self.advance();
        let first_end = end_of(self.current_token());
        let first = match self.parse_ident(msg, msg) {
            Ok(s) => s,
            Err(e) => {
                return Err(e);
            },
        };
        if self.at(TokenType::NamespaceSep) {
            self.advance();
            let second_end = end_of(self.current_token());
            let second = match self.parse_ident(msg, msg) {
                Ok(s) => s,
                Err(e) => {
                    return Err(e);
                },
            };
            if self.at(TokenType::NamespaceSep) {
                return Err(
                    self.error("nested namespace qualifier `::` is not allowed".to_owned()),
                );
            }
            Ok((first, second, second_end))
        } else {
            let namespace = String::new();
            assert(namespace@ =~= Seq::<char>::empty());
            Ok((namespace, first, first_end))
        }
    }

    /// Read an expression.
    pub(crate) fn parse_expr(&mut self) -> (r: Result<Expr, ParseError>)
        requires
            old(self).wf(),
        ensures
            final(self).follows(old(self), r is Ok),
            expression(old(self).source(), old(self).ahead()) == (
                match r {
                    Ok(x) => Ok::<ExprView, ParseErrorView>(x@),
                    Err(e) => Err(e@),
                },
                final(self).ahead(),
            ),
    {
        let tok = self.current_token().duplicate();
        match &tok.ty {
            TokenType::Illegal(msg) => Err(
                ParseError::new(
                    SourceSpan { offset: tok.offset, len: tok.len },
                    msg.clone(),
                ),
            ),
            TokenType::Backtick(content) => {
                self.advance();
                match parse_interpolation_parts(content.as_str(), tok.offset) {
                    Err(e) => Err(e),
                    Ok(parts) => Ok(
                        Expr::BacktickLit {
                            parts,
                            offset: tok.offset,
                            len: tok.len,
                            source_name: self.name(),
                        },
                    ),
                }
            },
            TokenType::Dollar => match self.parse_dollar_var_name("expected identifier after `$`") {
                Err(e) => Err(e),
                Ok((namespace, name, end)) => Ok(
                    Expr::VarRef {
                        name,
                        namespace,
                        offset: tok.offset,
                        len: end.saturating_sub(tok.offset),
                        source_name: self.name(),
                    },
                ),
            },
            ty => {
                if let TokenType::Ident(s) = ty {
                    if same(s.as_str(), "_") {
                        return Err(self.error("`_` is only valid as a case pattern".to_owned()));
                    }
                }
                let e = self.error_found(
                    "expected backtick string or variable reference, found ",
                    "",
                );
                proof {
                    reveal_strlit("");
                    let w = "expected backtick string or variable reference, found "@ + token_name(
                        ty@,
                    );
                    assert(w + ""@ =~= w);
                }
                Err(e)
            },
        }
    }
}

} // verus!
