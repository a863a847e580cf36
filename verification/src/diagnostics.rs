//! Diagnostics: messages that point at a place in a source file.
use vstd::prelude::*;
use crate::dsl::error::SourceSpan;
use crate::names::{lookup, NameMap};
use crate::text::{byte_count, byte_len};

verus! {

broadcast use vstd::string::group_string_axioms;

/// A source file: its name and its text.
pub struct SourceFile<'a> {
    pub name: &'a str,
    pub text: &'a str,
}

/// The text that a name stands for in a registry of sources; empty where the
/// name is unknown.
pub open spec fn source_text(sources: Seq<(Seq<char>, String)>, name: Seq<char>) -> Seq<char> {
    match lookup(sources, name) {
        Some(text) => text@,
        None => ""@,
    }
}

impl<'a> SourceFile<'a> {
    /// The source file with a name. The text of an unknown file is empty.
    pub fn from_registry(sources: &'a NameMap<String>, name: &'a str) -> (r: SourceFile<'a>)
        ensures
            r.name@ == name@,
            r.text@ == source_text(sources@, name@),
    {
        let text = match sources.get(name) {
            Some(text) => text.as_str(),
            None => "",
        };
        SourceFile { name, text }
    }
}

/// The part of a text that a span marks: it starts in the text, marks one byte
/// at least, and ends in the text. Of an empty text nothing is marked.
pub open spec fn clamped(text: Seq<char>, offset: usize, len: usize) -> SourceSpan {
    let total = byte_len(text);
    if total == 0 {
        SourceSpan { offset: 0, len: 0 }
    } else {
        let start = if offset < total {
            offset as nat
        } else {
            (total - 1) as nat
        };
        let wanted = if len == 0 {
            1
        } else {
            len as nat
        };
        SourceSpan {
            offset: start as usize,
            len: (if wanted <= total - start {
                wanted
            } else {
                (total - start) as nat
            }) as usize,
        }
    }
}

/// A span in a text never reaches past its end, wherever it was said to be, and
/// is empty only in an empty text.
pub proof fn law_clamped_span_is_inside(text: Seq<char>, offset: usize, len: usize)
    requires
        byte_len(text) <= usize::MAX,
    ensures
        clamped(text, offset, len).offset + clamped(text, offset, len).len <= byte_len(text),
        byte_len(text) > 0 ==> clamped(text, offset, len).len > 0,
{
}

/// A span that already marks a part of a text is kept.
pub proof fn law_clamped_span_is_kept(text: Seq<char>, offset: usize, len: usize)
    requires
        byte_len(text) <= usize::MAX,
        len > 0,
        offset + len <= byte_len(text),
    ensures
        clamped(text, offset, len) == (SourceSpan { offset, len }),
{
}

/// Fit a span to a text.
pub fn clamped_span(text: &str, offset: usize, len: usize) -> (r: SourceSpan)
    ensures
        r == clamped(text@, offset, len),
{
    let total = byte_count(text);
    if total == 0 {
        return SourceSpan { offset: 0, len: 0 };
    }
    let start: usize = if offset < total {
        offset
    } else {
        total - 1
    };
    let wanted: usize = if len == 0 {
        1
    } else {
        len
    };
    let available: usize = total - start;
    SourceSpan {
        offset: start,
        len: if wanted <= available {
            wanted
        } else {
            available
        },
    }
}

/// A message about a place in a source.
#[derive(Debug, PartialEq)]
pub struct Diagnostic {
    pub source_name: String,
    pub span: SourceSpan,
    pub msg: String,
    pub source_text: String,
}

/// The contents of a [`Diagnostic`].
pub struct DiagnosticView {
    pub source_name: Seq<char>,
    pub span: SourceSpan,
    pub msg: Seq<char>,
    pub source_text: Seq<char>,
}

impl Diagnostic {
    pub open spec fn view(&self) -> DiagnosticView {
        DiagnosticView {
            source_name: self.source_name@,
            span: self.span,
            msg: self.msg@,
            source_text: self.source_text@,
        }
    }

    /// A message about a span of a source.
    pub fn new(source_name: String, span: SourceSpan, msg: String, source_text: String) -> (r: Self)
        ensures
            r@ == (DiagnosticView {
                source_name: source_name@,
                span,
                msg: msg@,
                source_text: source_text@,
            }),
    {
        Diagnostic { source_name, span, msg, source_text }
    }
}

pub open spec fn diagnostic_views(s: Seq<Diagnostic>) -> Seq<DiagnosticView> {
    Seq::new(s.len(), |i: int| s[i]@)
}

/// A message about a source, with its span fitted to the text.
pub fn spanned_report(msg: String, source: &SourceFile<'_>, offset: usize, len: usize) -> (r:
    Diagnostic)
    ensures
        r@ == (DiagnosticView {
            source_name: source.name@,
            span: clamped(source.text@, offset, len),
            msg: msg@,
            source_text: source.text@,
        }),
{
    Diagnostic::new(
        source.name.to_owned(),
        clamped_span(source.text, offset, len),
        msg,
        source.text.to_owned(),
    )
}

/// A message about a named source of a registry.
pub fn spanned_report_on(
    msg: String,
    sources: &NameMap<String>,
    source_name: &str,
    offset: usize,
    len: usize,
) -> (r: Diagnostic)
    ensures
        r@ == (DiagnosticView {
            source_name: source_name@,
            span: clamped(source_text(sources@, source_name@), offset, len),
            msg: msg@,
            source_text: source_text(sources@, source_name@),
        }),
{
    let source = SourceFile::from_registry(sources, source_name);
    spanned_report(msg, &source, offset, len)
}

} // verus!
