//! What is spelled out in characters is cut as it is meant: texts in backticks
//! with the variables in them, words, signs, blanks and comments.
use vstd::prelude::*;
use crate::dsl::error::ParseErrorView;
use crate::dsl::grammar::{closing_brace, literal, pieces, separator_at, variable};
use crate::dsl::lexer::{
    clip, col_of, is_word_char, line_end, line_ends, line_of, next_at, not_white, not_word, path_end, token_at, token_start,
    tokens_from, until,
};
use crate::dsl::syntax::PartView;
use crate::dsl::token::{word_type, TypeView};
use crate::text::{byte_len, is_letter, is_white};

verus! {

/// Whether a text stands at a place.
pub open spec fn stands(s: Seq<char>, i: int, text: Seq<char>) -> bool {
    0 <= i && i + text.len() <= s.len() && forall|k: int|
        0 <= k < text.len() ==> #[trigger] s[i + k] == text[k]
}

proof fn lemma_stands(s: Seq<char>, i: int, text: Seq<char>)
    requires
        stands(s, i, text),
    ensures
        s.subrange(i, i + text.len()) == text,
{
    let cut = s.subrange(i, i + text.len());
    assert forall|k: int| 0 <= k < text.len() implies #[trigger] cut[k] == text[k] by {
        assert(s[i + k] == text[k]);
    }
    assert(cut =~= text);
}

// ── Texts in backticks ───────────────────────────────────────────────────────

/// How a piece is spelled: literal text as it is, a variable as `${name}`, or as
/// `${namespace::name}`.
pub open spec fn piece_text(part: PartView) -> Seq<char> {
    if !part.is_var {
        part.value
    } else {
        seq!['$', '{'] + reference_text(part.namespace, part.value) + seq!['}']
    }
}

/// How the reference to a variable is spelled.
pub open spec fn reference_text(namespace: Seq<char>, name: Seq<char>) -> Seq<char> {
    if namespace.len() == 0 {
        name
    } else {
        namespace + seq![':', ':'] + name
    }
}

/// Whether a text has no `::` in it and none at its edge.
pub open spec fn is_plain_name(name: Seq<char>) -> bool {
    &&& name.len() > 0
    &&& forall|k: int| 0 <= k < name.len() ==> #[trigger] name[k] != '}' && name[k] != ':'
}

/// Whether a piece can be spelled so.
pub open spec fn is_plain(part: PartView) -> bool {
    if part.is_var {
        is_plain_name(part.value) && (part.namespace.len() == 0 || is_plain_name(part.namespace))
    } else {
        &&& part.namespace.len() == 0
        &&& part.value.len() > 0
        &&& forall|k: int| 0 <= k < part.value.len() ==> #[trigger] part.value[k] != '$'
    }
}

/// The texts of pieces, one after another.
pub open spec fn spelled(parts: Seq<PartView>) -> Seq<char>
    decreases parts.len(),
{
    if parts.len() == 0 {
        Seq::empty()
    } else {
        piece_text(parts[0]) + spelled(parts.skip(1))
    }
}

/// Whether no two literal texts stand beside each other.
pub open spec fn are_apart(parts: Seq<PartView>) -> bool {
    forall|i: int|
        0 <= i < parts.len() - 1 ==> (#[trigger] parts[i]).is_var || parts[i + 1].is_var
}

proof fn lemma_no_separator(s: Seq<char>, i: int, end: int)
    requires
        0 <= i <= end <= s.len(),
        forall|k: int| i <= k < end ==> #[trigger] s[k] != ':',
        end == s.len() || (end + 1 < s.len() && s[end] == ':' && s[end + 1] == ':'),
    ensures
        separator_at(s, i) == end,
    decreases end - i,
{
    if i < end {
        if i + 1 < s.len() {
            lemma_no_separator(s, i + 1, end);
        }
    }
}

/// A reference names the variable that it spells, in its namespace.
pub proof fn law_a_reference_names_its_variable(namespace: Seq<char>, name: Seq<char>)
    requires
        is_plain_name(name),
        namespace.len() == 0 || is_plain_name(namespace),
    ensures
        variable(reference_text(namespace, name)) == Ok::<PartView, Seq<char>>(
            PartView { is_var: true, namespace, value: name },
        ),
{
    let s = reference_text(namespace, name);
    if namespace.len() == 0 {
        lemma_no_separator(s, 0, s.len() as int);
        assert(namespace =~= Seq::<char>::empty());
    } else {
        let k = namespace.len() as int;
        assert forall|j: int| 0 <= j < k implies #[trigger] s[j] != ':' by {
            assert(s[j] == namespace[j]);
        }
        assert(s[k] == ':' && s[k + 1] == ':');
        lemma_no_separator(s, 0, k);
        assert forall|j: int| k + 2 <= j < s.len() implies #[trigger] s[j] != ':' by {
            assert(s[j] == name[j - k - 2]);
        }
        lemma_no_separator(s, k + 2, s.len() as int);
        assert(s.take(k) =~= namespace);
        assert(s.skip(k + 2) =~= name);
    }
}

proof fn lemma_brace(s: Seq<char>, i: int, n: int)
    requires
        0 <= i <= n < s.len(),
        forall|k: int| i <= k < n ==> #[trigger] s[k] != '}',
        s[n] == '}',
    ensures
        until(s, i, closing_brace()) == n,
    decreases n - i,
{
    if i < n {
        lemma_brace(s, i + 1, n);
    }
}

proof fn lemma_text(s: Seq<char>, i: int, done: Seq<char>, text: Seq<char>, offset: usize)
    requires
        stands(s, i, text),
        forall|k: int| 0 <= k < text.len() ==> #[trigger] text[k] != '$',
    ensures
        pieces(s, i, done, offset) == pieces(s, i + text.len(), done + text, offset),
    decreases text.len(),
{
    if text.len() == 0 {
        assert(done + text =~= done);
    } else {
        let more = text.skip(1);
        assert(s[i + 0] == text[0]);
        assert forall|k: int| 0 <= k < more.len() implies #[trigger] s[i + 1 + k] == more[k] by {
            assert(s[i + (k + 1)] == text[k + 1]);
        }
        lemma_text(s, i + 1, done.push(text[0]), more, offset);
        assert(done.push(text[0]) + more =~= done + text);
    }
}

#[verifier::rlimit(40)]
proof fn lemma_pieces(
    s: Seq<char>,
    i: int,
    done: Seq<char>,
    parts: Seq<PartView>,
    offset: usize,
)
    requires
        0 <= i <= s.len(),
        s.skip(i) == spelled(parts),
        forall|k: int| 0 <= k < parts.len() ==> is_plain(#[trigger] parts[k]),
        are_apart(parts),
        done.len() > 0 && parts.len() > 0 ==> parts[0].is_var,
    ensures
        pieces(s, i, done, offset) == Ok::<Seq<PartView>, ParseErrorView>(literal(done) + parts),
    decreases parts.len(),
{
    let rest = s.skip(i);
    if parts.len() == 0 {
        assert(rest.len() == 0);
        assert(literal(done) + parts =~= literal(done));
    } else {
        let part = parts[0];
        let others = parts.skip(1);
        let text = piece_text(part);
        let n = text.len() as int;
        assert(is_plain(part));
        assert(rest == text + spelled(others));
        assert(s.skip(i + n) =~= spelled(others)) by {
            assert forall|k: int| 0 <= k < spelled(others).len() implies s.skip(i + n)[k]
                == spelled(others)[k] by {
                assert(rest[n + k] == s[i + n + k]);
            }
            assert(rest.len() == s.len() - i);
        }
        assert forall|k: int| 0 <= k < text.len() implies #[trigger] s[i + k] == text[k] by {
            assert(rest[k] == s[i + k]);
        }
        assert(stands(s, i, text));
        assert forall|k: int| 0 <= k < others.len() implies is_plain(#[trigger] others[k]) by {
            assert(others[k] == parts[k + 1]);
        }
        assert(are_apart(others)) by {
            assert forall|k: int| 0 <= k < others.len() - 1 implies (#[trigger] others[k]).is_var
                || others[k + 1].is_var by {
                assert(others[k] == parts[k + 1]);
                assert(parts[k + 1].is_var || parts[k + 1 + 1].is_var);
            }
        }
        let none = Seq::<char>::empty();
        if part.is_var {
            let name = reference_text(part.namespace, part.value);
            let m = name.len() as int;
            assert(text[0] == '$' && text[1] == '{' && text[m + 2] == '}');
            assert(s[i + 0] == text[0] && s[i + 1] == text[1] && s[i + (m + 2)] == text[m + 2]);
            assert forall|k: int| 0 <= k < m implies #[trigger] s[i + 2 + k] == name[k] by {
                assert(s[i + (2 + k)] == text[2 + k]);
            }
            lemma_stands(s, i + 2, name);
            law_a_reference_names_its_variable(part.namespace, part.value);
            assert forall|k: int| i + 2 <= k < i + 2 + m implies #[trigger] s[k] != '}' by {
                assert(s[i + 2 + (k - i - 2)] == name[k - i - 2]);
                lemma_name_char(part.namespace, part.value, k - i - 2);
            }
            lemma_brace(s, i + 2, i + 2 + m);
            lemma_pieces(s, i + n, none, others, offset);
            assert(literal(none) + others =~= others);
            assert(literal(done) + seq![part] + others =~= literal(done) + parts);
        } else {
            assert(done =~= none);
            lemma_text(s, i, done, text, offset);
            assert(none + text =~= text);
            if others.len() > 0 {
                assert(parts[0].is_var || parts[0int + 1].is_var);
                assert(others[0] == parts[1]);
            }
            lemma_pieces(s, i + n, text, others, offset);
            assert(part.namespace =~= none);
            assert(literal(text) + others =~= literal(none) + parts);
        }
    }
}

proof fn lemma_name_char(namespace: Seq<char>, name: Seq<char>, k: int)
    requires
        is_plain_name(name),
        namespace.len() == 0 || is_plain_name(namespace),
        0 <= k < reference_text(namespace, name).len(),
    ensures
        reference_text(namespace, name)[k] != '}',
{
    let s = reference_text(namespace, name);
    let n = namespace.len() as int;
    if n == 0 {
        assert(name[k] != '}');
    } else if k < n {
        assert(s[k] == namespace[k]);
    } else if k >= n + 2 {
        assert(s[k] == name[k - n - 2]);
    }
}

/// A text in backticks is cut into the pieces that it spells: literal text, and
/// variables, each in its namespace.
pub proof fn law_a_text_is_cut_into_its_pieces(parts: Seq<PartView>, offset: usize)
    requires
        forall|k: int| 0 <= k < parts.len() ==> is_plain(#[trigger] parts[k]),
        are_apart(parts),
    ensures
        pieces(spelled(parts), 0, Seq::empty(), offset) == Ok::<Seq<PartView>, ParseErrorView>(
            parts,
        ),
{
    let s = spelled(parts);
    assert(s.skip(0) =~= s);
    lemma_pieces(s, 0, Seq::empty(), parts, offset);
    assert(literal(Seq::empty()) + parts =~= parts);
}

// ── Words and signs ──────────────────────────────────────────────────────────

/// The signs of the language.
pub open spec fn sign(ty: TypeView) -> Seq<char> {
    match ty {
        TypeView::LBrace => seq!['{'],
        TypeView::RBrace => seq!['}'],
        TypeView::LBracket => seq!['['],
        TypeView::RBracket => seq![']'],
        TypeView::Comma => seq![','],
        TypeView::Semicolon => seq![';'],
        TypeView::Dollar => seq!['$'],
        TypeView::Assign => seq!['='],
        TypeView::Arrow => seq!['=', '>'],
        TypeView::NamespaceSep => seq![':', ':'],
        _ => Seq::empty(),
    }
}

/// A sign is read as what it stands for. A `=` is one of its own where no `>`
/// follows it.
pub proof fn law_signs_are_read(s: Seq<char>, i: int, ty: TypeView)
    requires
        sign(ty).len() > 0,
        stands(s, i, sign(ty)),
        ty == TypeView::Assign && i + 1 < s.len() ==> s[i + 1] != '>',
    ensures
        token_at(s, i) == (ty, i + sign(ty).len()),
{
    assert(s[i + 0] == sign(ty)[0]);
    if sign(ty).len() > 1 {
        assert(s[i + 1] == sign(ty)[1]);
    }
}

proof fn lemma_until_all(s: Seq<char>, i: int, n: int, stop: spec_fn(char) -> bool)
    requires
        0 <= i <= n <= s.len(),
        forall|k: int| i <= k < n ==> !stop(#[trigger] s[k]),
        n < s.len() ==> stop(s[n]),
    ensures
        until(s, i, stop) == n,
    decreases n - i,
{
    if i < n {
        lemma_until_all(s, i + 1, n, stop);
    }
}

/// A word is read to its end: as a keyword, or as the identifier that it is.
pub proof fn law_words_are_read(s: Seq<char>, i: int, word: Seq<char>)
    requires
        word.len() > 0,
        stands(s, i, word),
        is_letter(word[0]) || word[0] == '_',
        forall|k: int| 0 <= k < word.len() ==> is_word_char(#[trigger] word[k]),
        i + word.len() < s.len() ==> !is_word_char(s[i + word.len()]),
    ensures
        token_at(s, i) == (word_type(word), i + word.len()),
{
    assert(s[i + 0] == word[0]);
    let n = i + word.len();
    assert forall|k: int| i <= k < n implies !not_word()(#[trigger] s[k]) by {
        assert(s[i + (k - i)] == word[k - i]);
    }
    lemma_until_all(s, i, n, not_word());
    lemma_stands(s, i, word);
}

/// A path, which starts with `./` or `../`, is read up to a blank or a `;`.
pub proof fn law_paths_are_read(s: Seq<char>, i: int, path: Seq<char>)
    requires
        stands(s, i, path),
        stands(path, 0, seq!['.', '/']) || stands(path, 0, seq!['.', '.', '/']),
        forall|k: int| 0 <= k < path.len() ==> !is_white(#[trigger] path[k]) && path[k] != ';',
        i + path.len() < s.len() ==> is_white(s[i + path.len()]) || s[i + path.len()] == ';',
    ensures
        token_at(s, i) == (TypeView::PathLit(path), i + path.len()),
{
    let n = i + path.len();
    assert(s[i + 0] == path[0] && s[i + 1] == path[1]);
    if stands(path, 0, seq!['.', '/']) {
        assert(path[0int + 0] == seq!['.', '/'][0]);
        assert(path[0int + 1] == seq!['.', '/'][1]);
    } else {
        assert(path[0int + 0] == seq!['.', '.', '/'][0]);
        assert(path[0int + 1] == seq!['.', '.', '/'][1]);
        assert(path[0int + 2] == seq!['.', '.', '/'][2]);
        assert(s[i + 2] == path[2]);
    }
    assert forall|k: int| i <= k < n implies !path_end()(#[trigger] s[k]) by {
        assert(s[i + (k - i)] == path[k - i]);
    }
    lemma_until_all(s, i, n, path_end());
    lemma_stands(s, i, path);
}

/// Before a token, blanks are passed over, and comments, from `#` to the end of
/// the line; and nothing else is.
pub proof fn law_blanks_and_comments_are_passed_over(s: Seq<char>, i: int, end: int)
    requires
        0 <= i <= end <= s.len(),
    ensures
        i == s.len() ==> token_start(s, i) == i,
        i < s.len() && !is_white(s[i]) && s[i] != '#' ==> token_start(s, i) == i,
        i < s.len() && is_white(s[i]) ==> token_start(s, i) == token_start(s, i + 1),
        i < s.len() && s[i] == '#' && (forall|k: int|
            i <= k < end ==> #[trigger] s[k] != '\n') && (end < s.len() ==> s[end] == '\n')
            ==> token_start(s, i) == token_start(s, end),
{
    if i < s.len() && s[i] == '#' && (forall|k: int| i <= k < end ==> #[trigger] s[k] != '\n') && (
    end < s.len() ==> s[end] == '\n') {
        lemma_until_all(s, i, end, line_end());
    }
    if i < s.len() && is_white(s[i]) {
        assert(until(s, i, not_white()) == until(s, i + 1, not_white()));
    }
}

/// A text is cut token by token: the first one from a place on, and those from
/// its end on.
pub proof fn law_a_text_is_cut_token_by_token(s: Seq<char>, i: int)
    requires
        0 <= i <= s.len(),
    ensures
        ({
            let start = token_start(s, i);
            let (ty, end) = token_at(s, start);
            let tokens = tokens_from(s, i);
            &&& ty is Eof ==> tokens.len() == 0
            &&& !(ty is Eof) ==> {
                &&& tokens.len() > 0
                &&& tokens[0].ty == ty
                &&& tokens[0].offset == byte_len(s.take(start)) as usize
                &&& tokens[0].len == byte_len(s.subrange(start, end)) as usize
                &&& tokens.skip(1) == tokens_from(s, end)
            }
        }),
{
    let (tok, end) = next_at(s, i);
    if !(tok.ty is Eof) {
        assert((seq![tok] + tokens_from(s, end)).skip(1) =~= tokens_from(s, end));
    }
}

/// The place of a character: a line end opens a line, at column zero, and any
/// other character stands one column after the one before it. The text starts in
/// the first column of the first line.
pub proof fn law_lines_and_columns_are_counted(s: Seq<char>, i: int)
    requires
        0 <= i < s.len(),
    ensures
        line_of(s, 0) == if s[0] == '\n' {
            2nat
        } else {
            1
        },
        col_of(s, 0) == if s[0] == '\n' {
            0nat
        } else {
            1
        },
        i + 1 < s.len() ==> line_of(s, i + 1) == line_of(s, i) + (if s[i + 1] == '\n' {
            1nat
        } else {
            0
        }),
        i + 1 < s.len() ==> col_of(s, i + 1) == if s[i + 1] == '\n' {
            0nat
        } else {
            col_of(s, i) + 1
        },
        tokens_from(s, i).len() > 0 ==> {
            let start = token_start(s, i);
            &&& tokens_from(s, i)[0].line == clip(line_of(s, start))
            &&& tokens_from(s, i)[0].col == clip(col_of(s, start))
        },
{
    assert(s.take(1).drop_last() =~= Seq::<char>::empty());
    reveal_with_fuel(line_ends, 2);
    assert(s.take(1).last() == s[0]);
    if i + 1 < s.len() {
        assert(s.take(i + 2).drop_last() =~= s.take(i + 1));
        assert(s.take(i + 2).last() == s[i + 1]);
    }
}

} // verus!
