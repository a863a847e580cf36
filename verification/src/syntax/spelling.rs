//! What is spelled out in characters is cut as it is meant: templates with all
//! that stands in them, words and signs.
use vstd::prelude::*;
use crate::dsl::lexer::{is_word_char, not_word, token_start, until};
use crate::syntax::lexer::{
    body_at, closing_paren, is_keyword, length_of, literal, next_at, offset_of, template_at,
    token_at, token_name, tokens_from, word_type, TypeView,
};
use crate::syntax::{PartView, TemplateView};
use crate::text::is_letter;

verus! {

// ── Templates ────────────────────────────────────────────────────────────────

/// Whether a text can stand in a template as it is: its parentheses are paired,
/// with `depth` of them open before it, and none follows a `@` or a `$`.
pub open spec fn kept(text: Seq<char>, depth: nat) -> bool
    decreases text.len(),
{
    if text.len() == 0 {
        depth == 0
    } else if text[0] == '(' {
        kept(text.skip(1), depth + 1)
    } else if text[0] == ')' {
        depth > 0 && kept(text.skip(1), (depth - 1) as nat)
    } else {
        &&& (text[0] == '@' || text[0] == '$') && text.len() > 1 ==> text[1] != '('
        &&& kept(text.skip(1), depth)
    }
}

/// Whether a text stands at a place.
pub open spec fn stands(s: Seq<char>, i: int, text: Seq<char>) -> bool {
    0 <= i && i + text.len() <= s.len() && forall|k: int|
        0 <= k < text.len() ==> #[trigger] s[i + k] == text[k]
}

proof fn lemma_stands(s: Seq<char>, i: int, text: Seq<char>)
    requires
        stands(s, i, text),
    ensures
        s.subrange(i, i + text.len()) == text,
{
    let cut = s.subrange(i, i + text.len());
    assert forall|k: int| 0 <= k < text.len() implies #[trigger] cut[k] == text[k] by {
        assert(s[i + k] == text[k]);
    }
    assert(cut =~= text);
}

/// How many characters pieces take.
pub open spec fn spelled_len(parts: Seq<PartView>) -> nat
    decreases parts,
{
    if parts.len() == 0 {
        0
    } else {
        piece_len(parts[0]) + spelled_len(parts.drop_first())
    }
}

/// How many characters a piece takes.
pub open spec fn piece_len(part: PartView) -> nat
    decreases part,
{
    match part {
        PartView::Lit(text) => text.len(),
        PartView::Var(name) => name.len() + 3,
        PartView::Cmd(inner) => template_len(inner) + 3,
    }
}

pub open spec fn template_len(t: TemplateView) -> nat
    decreases t,
{
    spelled_len(t.parts)
}

/// Whether pieces are spelled out at a place: literal text as it is, a variable as
/// `@(name)`, a command as `$(..)`; a command carries its own place. No two
/// literal texts stand beside each other.
pub open spec fn spelled(name: Seq<char>, s: Seq<char>, i: int, parts: Seq<PartView>) -> bool
    decreases parts,
{
    parts.len() > 0 ==> {
        &&& spelled_piece(name, s, i, parts[0])
        &&& parts.len() > 1 && parts[0] is Lit ==> !(parts[1] is Lit)
        &&& spelled(name, s, i + piece_len(parts[0]), parts.drop_first())
    }
}

pub open spec fn spelled_piece(name: Seq<char>, s: Seq<char>, i: int, part: PartView) -> bool
    decreases part,
{
    match part {
        PartView::Lit(text) => text.len() > 0 && kept(text, 0) && stands(s, i, text),
        PartView::Var(var) => {
            &&& stands(s, i, seq!['@', '('])
            &&& var.len() > 0 && stands(s, i + 2, var)
            &&& forall|k: int| 0 <= k < var.len() ==> #[trigger] var[k] != ')'
            &&& stands(s, i + 2 + var.len(), seq![')'])
        },
        PartView::Cmd(inner) => {
            &&& stands(s, i, seq!['$', '('])
            &&& spelled_template(name, s, i, i + 2, inner)
        },
    }
}

/// Whether the pieces of a template are spelled out from `from` on, and closed;
/// the template itself starts at `start`.
pub open spec fn spelled_template(
    name: Seq<char>,
    s: Seq<char>,
    start: int,
    from: int,
    t: TemplateView,
) -> bool
    decreases t,
{
    let end = from + template_len(t);
    &&& spelled(name, s, from, t.parts)
    &&& stands(s, end, seq![')'])
    &&& t.offset == offset_of(s, start)
    &&& t.len == length_of(s, start, end + 1)
    &&& t.source_name == name
}

proof fn lemma_until_name(s: Seq<char>, i: int, n: int)
    requires
        0 <= i <= n < s.len(),
        forall|k: int| i <= k < n ==> #[trigger] s[k] != ')',
        s[n] == ')',
    ensures
        until(s, i, closing_paren()) == n,
    decreases n - i,
{
    if i < n {
        lemma_until_name(s, i + 1, n);
    }
}

/// Literal text is taken up to its end.
proof fn lemma_text(
    name: Seq<char>,
    s: Seq<char>,
    i: int,
    done: Seq<char>,
    text: Seq<char>,
    depth: nat,
)
    requires
        kept(text, depth),
        stands(s, i, text),
        i + text.len() < s.len(),
        s[i + text.len()] != '(',
    ensures
        body_at(name, s, i, done, depth) == body_at(name, s, i + text.len(), done + text, 0),
    decreases text.len(),
{
    if text.len() == 0 {
        assert(done + text =~= done);
    } else {
        let more = text.skip(1);
        assert(s[i + 0] == text[0]);
        assert forall|k: int| 0 <= k < more.len() implies #[trigger] s[i + 1 + k] == more[k] by {
            assert(s[i + (k + 1)] == text[k + 1]);
        }
        if text.len() > 1 {
            assert(s[i + 1] == text[1]);
        }
        let next = if text[0] == '(' {
            depth + 1
        } else if text[0] == ')' {
            (depth - 1) as nat
        } else {
            depth
        };
        lemma_text(name, s, i + 1, done.push(text[0]), more, next);
        assert(done.push(text[0]) + more =~= done + text);
    }
}

/// Pieces are taken up to the parenthesis that closes them.
#[verifier::rlimit(40)]
proof fn lemma_pieces(
    name: Seq<char>,
    s: Seq<char>,
    i: int,
    done: Seq<char>,
    parts: Seq<PartView>,
)
    requires
        0 <= i,
        spelled(name, s, i, parts),
        stands(s, i + spelled_len(parts), seq![')']),
        done.len() > 0 && parts.len() > 0 ==> !(parts[0] is Lit),
    ensures
        body_at(name, s, i, done, 0) == Ok::<(Seq<PartView>, int), Seq<char>>(
            (literal(done) + parts, i + spelled_len(parts) + 1),
        ),
    decreases parts, 0int,
{
    if parts.len() == 0 {
        assert(s[i + 0] == seq![')'][0]);
        assert(literal(done) + parts =~= literal(done));
    } else {
        let part = parts[0];
        let others = parts.drop_first();
        let n = piece_len(part);
        let m = spelled_len(others);
        assert(decreases_to!(parts => parts[0]));
        assert(decreases_to!(parts => others)) by {
            assert(others =~= parts.subrange(1, parts.len() as int));
        }
        assert(spelled_piece(name, s, i, part));
        assert(spelled(name, s, i + n, others));
        assert(spelled_len(parts) == n + m);
        let none = Seq::<char>::empty();
        if others.len() > 0 {
            assert(others[0] == parts[1]);
        }
        match part {
            PartView::Lit(text) => {
                lemma_opens(name, s, i + n, others);
                assert(done =~= none);
                lemma_text(name, s, i, done, text, 0);
                assert(none + text =~= text);
                lemma_pieces(name, s, i + n, text, others);
                assert(literal(text) + others =~= literal(none) + parts);
            },
            PartView::Var(var) => {
                lemma_pieces(name, s, i + n, none, others);
                lemma_var(name, s, i, done, var, others, i + n + m + 1);
                assert(literal(none) + others =~= others);
                assert(literal(done) + seq![part] + others =~= literal(done) + parts);
            },
            PartView::Cmd(inner) => {
                lemma_inner(name, s, i, i + 2, inner);
                lemma_pieces(name, s, i + n, none, others);
                assert(literal(none) + others =~= others);
                let end = i + 2 + template_len(inner) + 1;
                assert(end == i + n);
                lemma_command(name, s, i, done, inner, others, end, i + n + m + 1);
                assert(literal(done) + seq![part] + others =~= literal(done) + parts);
            },
        }
    }
}

/// What follows literal text is no opening parenthesis.
proof fn lemma_opens(name: Seq<char>, s: Seq<char>, i: int, parts: Seq<PartView>)
    requires
        0 <= i,
        spelled(name, s, i, parts),
        stands(s, i + spelled_len(parts), seq![')']),
        parts.len() > 0 ==> !(parts[0] is Lit),
    ensures
        i < s.len(),
        s[i] != '(',
{
    if parts.len() == 0 {
        assert(s[i + 0] == seq![')'][0]);
    } else {
        assert(spelled_piece(name, s, i, parts[0]));
        match parts[0] {
            PartView::Var(_) => {
                assert(s[i + 0] == seq!['@', '('][0]);
            },
            _ => {
                assert(s[i + 0] == seq!['$', '('][0]);
            },
        }
    }
}

proof fn lemma_var(
    name: Seq<char>,
    s: Seq<char>,
    i: int,
    done: Seq<char>,
    var: Seq<char>,
    more: Seq<PartView>,
    last: int,
)
    requires
        0 <= i,
        spelled_piece(name, s, i, PartView::Var(var)),
        body_at(name, s, i + var.len() + 3, Seq::empty(), 0) == Ok::<
            (Seq<PartView>, int),
            Seq<char>,
        >((more, last)),
    ensures
        body_at(name, s, i, done, 0) == Ok::<(Seq<PartView>, int), Seq<char>>(
            (literal(done) + seq![PartView::Var(var)] + more, last),
        ),
{
    let open = seq!['@', '('];
    assert(s[i + 0] == open[0]);
    assert(s[i + 1] == open[1]);
    let close = i + 2 + var.len();
    assert(s[close + 0] == seq![')'][0]);
    assert forall|k: int| i + 2 <= k < close implies #[trigger] s[k] != ')' by {
        assert(s[i + 2 + (k - i - 2)] == var[k - i - 2]);
    }
    lemma_until_name(s, i + 2, close);
    lemma_stands(s, i + 2, var);
}

proof fn lemma_command(
    name: Seq<char>,
    s: Seq<char>,
    i: int,
    done: Seq<char>,
    inner: TemplateView,
    more: Seq<PartView>,
    end: int,
    last: int,
)
    requires
        0 <= i < end <= s.len(),
        stands(s, i, seq!['$', '(']),
        body_at(name, s, i + 2, Seq::empty(), 0) == Ok::<(Seq<PartView>, int), Seq<char>>(
            (inner.parts, end),
        ),
        inner.offset == offset_of(s, i),
        inner.len == length_of(s, i, end),
        inner.source_name == name,
        body_at(name, s, end, Seq::empty(), 0) == Ok::<(Seq<PartView>, int), Seq<char>>(
            (more, last),
        ),
    ensures
        body_at(name, s, i, done, 0) == Ok::<(Seq<PartView>, int), Seq<char>>(
            (literal(done) + seq![PartView::Cmd(inner)] + more, last),
        ),
{
    let open = seq!['$', '('];
    assert(s[i + 0] == open[0]);
    assert(s[i + 1] == open[1]);
}

proof fn lemma_inner(name: Seq<char>, s: Seq<char>, start: int, from: int, t: TemplateView)
    requires
        0 <= from,
        spelled_template(name, s, start, from, t),
    ensures
        from + template_len(t) < s.len(),
        body_at(name, s, from, Seq::empty(), 0) == Ok::<(Seq<PartView>, int), Seq<char>>(
            (t.parts, from + template_len(t) + 1),
        ),
    decreases t, 1int,
{
    lemma_pieces(name, s, from, Seq::empty(), t.parts);
    assert(literal(Seq::empty()) + t.parts =~= t.parts);
}

/// A template in parentheses is cut into the pieces that are spelled out in it, at
/// any depth: text, with its own paired parentheses, variables and commands.
pub proof fn law_a_template_is_cut_into_its_pieces(
    name: Seq<char>,
    s: Seq<char>,
    i: int,
    t: TemplateView,
)
    requires
        stands(s, i, seq!['(']),
        spelled_template(name, s, i, i + 1, t),
    ensures
        token_at(name, s, i) == (TypeView::Template(t), i + 2 + template_len(t)),
{
    assert(s[i + 0] == seq!['('][0]);
    lemma_inner(name, s, i, i + 1, t);
    assert(template_at(name, s, i) == Ok::<(TemplateView, int), Seq<char>>(
        (t, i + 2 + template_len(t)),
    ));
}

/// A command alone, and a variable alone, are templates of one piece.
pub proof fn law_one_piece_alone_is_a_template(
    name: Seq<char>,
    s: Seq<char>,
    i: int,
    piece: PartView,
)
    requires
        0 <= i,
        !(piece is Lit),
        spelled_piece(name, s, i, piece),
    ensures
        ({
            let end = i + piece_len(piece);
            token_at(name, s, i) == (
                TypeView::Template(
                    TemplateView {
                        parts: seq![piece],
                        offset: offset_of(s, i),
                        len: length_of(s, i, end),
                        source_name: name,
                    },
                ),
                end,
            )
        }),
{
    match piece {
        PartView::Var(var) => {
            let open = seq!['@', '('];
            assert(s[i + 0] == open[0]);
            assert(s[i + 1] == open[1]);
            let close = i + 2 + var.len();
            assert(s[close + 0] == seq![')'][0]);
            assert forall|k: int| i + 2 <= k < close implies #[trigger] s[k] != ')' by {
                assert(s[i + 2 + (k - i - 2)] == var[k - i - 2]);
            }
            lemma_until_name(s, i + 2, close);
            lemma_stands(s, i + 2, var);
        },
        PartView::Cmd(inner) => {
            let open = seq!['$', '('];
            assert(s[i + 0] == open[0]);
            assert(s[i + 1] == open[1]);
            lemma_inner(name, s, i, i + 2, inner);
        },
        _ => {},
    }
}

// ── Words and signs ──────────────────────────────────────────────────────────

/// The signs of the language.
pub open spec fn sign(ty: TypeView) -> Seq<char> {
    match ty {
        TypeView::LBrace => seq!['{'],
        TypeView::RBrace => seq!['}'],
        TypeView::LBracket => seq!['['],
        TypeView::RBracket => seq![']'],
        TypeView::Semicolon => seq![';'],
        TypeView::Assign => seq!['='],
        TypeView::Arrow => seq!['=', '>'],
        TypeView::NamespaceSep => seq![':', ':'],
        _ => Seq::empty(),
    }
}

/// A sign is read as what it stands for. A `=` is one of its own where no `>`
/// follows it.
pub proof fn law_signs_are_read(name: Seq<char>, s: Seq<char>, i: int, ty: TypeView)
    requires
        sign(ty).len() > 0,
        stands(s, i, sign(ty)),
        ty == TypeView::Assign && i + 1 < s.len() ==> s[i + 1] != '>',
    ensures
        token_at(name, s, i) == (ty, i + sign(ty).len()),
{
    assert(s[i + 0] == sign(ty)[0]);
    if sign(ty).len() > 1 {
        assert(s[i + 1] == sign(ty)[1]);
    }
}

/// A word is read to its end: as a keyword, or as the identifier that it is.
pub proof fn law_words_are_read(name: Seq<char>, s: Seq<char>, i: int, word: Seq<char>)
    requires
        word.len() > 0,
        stands(s, i, word),
        is_letter(word[0]) || word[0] == '_',
        forall|k: int| 0 <= k < word.len() ==> is_word_char(#[trigger] word[k]),
        i + word.len() < s.len() ==> !is_word_char(s[i + word.len()]),
    ensures
        token_at(name, s, i) == (word_type(word), i + word.len()),
{
    assert(s[i + 0] == word[0]);
    let n = i + word.len();
    assert forall|k: int| i <= k < n implies is_word_char(#[trigger] s[k]) by {
        assert(s[i + (k - i)] == word[k - i]);
    }
    lemma_word_end(s, i, n);
    lemma_stands(s, i, word);
}

proof fn lemma_word_end(s: Seq<char>, i: int, n: int)
    requires
        0 <= i <= n <= s.len(),
        forall|k: int| i <= k < n ==> is_word_char(#[trigger] s[k]),
        n < s.len() ==> !is_word_char(s[n]),
    ensures
        until(s, i, not_word()) == n,
    decreases n - i,
{
    if i < n {
        lemma_word_end(s, i + 1, n);
    }
}

/// The words that are reserved, and what each stands for.
pub proof fn law_reserved_words()
    ensures
        word_type("import"@) == TypeView::Import,
        word_type("shell"@) == TypeView::Shell,
        word_type("timeout"@) == TypeView::Timeout,
        word_type("var"@) == TypeView::Var,
        word_type("sync"@) == TypeView::Sync,
        word_type("pr"@) == TypeView::Pr,
        word_type("fn"@) == TypeView::Fn,
        word_type("run"@) == TypeView::Run,
        word_type("log"@) == TypeView::Log,
        word_type("exec"@) == TypeView::Exec,
        word_type("bind"@) == TypeView::Bind,
        word_type("cd"@) == TypeView::Cd,
        word_type("env"@) == TypeView::Env,
        word_type("switch"@) == TypeView::Switch,
        word_type("case"@) == TypeView::Case,
{
    lemma_words_differ();
}

/// Of reserved words no two are alike.
proof fn lemma_words_differ()
    ensures
        "import"@.len() == 6 && "shell"@.len() == 5 && "timeout"@.len() == 7 && "var"@.len() == 3
            && "sync"@.len() == 4 && "pr"@.len() == 2 && "fn"@.len() == 2 && "run"@.len() == 3
            && "log"@.len() == 3 && "exec"@.len() == 4 && "bind"@.len() == 4 && "cd"@.len() == 2
            && "env"@.len() == 3 && "switch"@.len() == 6 && "case"@.len() == 4,
        "import"@[0] == 'i' && "shell"@[0] == 's' && "var"@[0] == 'v' && "sync"@[0] == 's'
            && "pr"@[0] == 'p' && "fn"@[0] == 'f' && "run"@[0] == 'r' && "log"@[0] == 'l'
            && "exec"@[0] == 'e' && "bind"@[0] == 'b' && "cd"@[0] == 'c' && "env"@[0] == 'e'
            && "switch"@[0] == 's' && "case"@[0] == 'c',
{
    reveal_strlit("import");
    reveal_strlit("shell");
    reveal_strlit("timeout");
    reveal_strlit("var");
    reveal_strlit("sync");
    reveal_strlit("pr");
    reveal_strlit("fn");
    reveal_strlit("run");
    reveal_strlit("log");
    reveal_strlit("exec");
    reveal_strlit("bind");
    reveal_strlit("cd");
    reveal_strlit("env");
    reveal_strlit("switch");
    reveal_strlit("case");
}

/// A word is a keyword or an identifier. A keyword is called by its word in
/// quotes, so that no other word is one, and an identifier holds the word.
pub proof fn law_other_words_are_identifiers(word: Seq<char>)
    ensures
        is_keyword(word_type(word)) || word_type(word) == TypeView::Ident(word),
        token_name(word_type(word)) == "`"@ + word + "`"@,
{
    reveal_strlit("`");
    reveal_strlit("import");
    reveal_strlit("`import`");
    assert("`import`"@ =~= "`"@ + "import"@ + "`"@);
    reveal_strlit("shell");
    reveal_strlit("`shell`");
    assert("`shell`"@ =~= "`"@ + "shell"@ + "`"@);
    reveal_strlit("timeout");
    reveal_strlit("`timeout`");
    assert("`timeout`"@ =~= "`"@ + "timeout"@ + "`"@);
    reveal_strlit("var");
    reveal_strlit("`var`");
    assert("`var`"@ =~= "`"@ + "var"@ + "`"@);
    reveal_strlit("sync");
    reveal_strlit("`sync`");
    assert("`sync`"@ =~= "`"@ + "sync"@ + "`"@);
    reveal_strlit("pr");
    reveal_strlit("`pr`");
    assert("`pr`"@ =~= "`"@ + "pr"@ + "`"@);
    reveal_strlit("fn");
    reveal_strlit("`fn`");
    assert("`fn`"@ =~= "`"@ + "fn"@ + "`"@);
    reveal_strlit("run");
    reveal_strlit("`run`");
    assert("`run`"@ =~= "`"@ + "run"@ + "`"@);
    reveal_strlit("log");
    reveal_strlit("`log`");
    assert("`log`"@ =~= "`"@ + "log"@ + "`"@);
    reveal_strlit("exec");
    reveal_strlit("`exec`");
    assert("`exec`"@ =~= "`"@ + "exec"@ + "`"@);
    reveal_strlit("bind");
    reveal_strlit("`bind`");
    assert("`bind`"@ =~= "`"@ + "bind"@ + "`"@);
    reveal_strlit("cd");
    reveal_strlit("`cd`");
    assert("`cd`"@ =~= "`"@ + "cd"@ + "`"@);
    reveal_strlit("env");
    reveal_strlit("`env`");
    assert("`env`"@ =~= "`"@ + "env"@ + "`"@);
    reveal_strlit("switch");
    reveal_strlit("`switch`");
    assert("`switch`"@ =~= "`"@ + "switch"@ + "`"@);
    reveal_strlit("case");
    reveal_strlit("`case`");
    assert("`case`"@ =~= "`"@ + "case"@ + "`"@);
}

/// A text is cut token by token: the first one from a place on, and those from
/// its end on.
pub proof fn law_a_text_is_cut_token_by_token(name: Seq<char>, s: Seq<char>, i: int)
    requires
        0 <= i <= s.len(),
    ensures
        ({
            let start = token_start(s, i);
            let (ty, end) = token_at(name, s, start);
            let tokens = tokens_from(name, s, i);
            &&& ty is Eof ==> tokens.len() == 0
            &&& !(ty is Eof) ==> {
                &&& tokens.len() > 0
                &&& tokens[0].ty == ty
                &&& tokens[0].offset == offset_of(s, start)
                &&& tokens[0].len == length_of(s, start, end)
                &&& tokens.skip(1) == tokens_from(name, s, end)
            }
        }),
{
    let (tok, end) = next_at(name, s, i);
    if !(tok.ty is Eof) {
        assert((seq![tok] + tokens_from(name, s, end)).skip(1) =~= tokens_from(name, s, end));
    }
}

} // verus!
