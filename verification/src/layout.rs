//! How a text that was written piece by piece is cut into tokens again, and the
//! tokens of a tree are read as that tree. These facts carry the proofs that
//! what is written as a kirufile is read back.
use vstd::prelude::*;
use crate::sexp::{
    after, brace_len, code_text, ends_symbol, escape, escaped, hex_digit_char, hex_digits_number,
    hex_number, hex_text, hex_value, letter_escape, node_at, nodes_at, numbered, quoted, string_at,
    symbol_len, tokens, unescape, Reason, SexpView, Token, TokenView,
};
use crate::text::is_white;

verus! {

/// The token of an opening parenthesis.
pub open spec fn open_token() -> TokenView {
    TokenView { kind: Token::LParen, text: "("@ }
}

/// The token of a closing parenthesis.
pub open spec fn close_token() -> TokenView {
    TokenView { kind: Token::RParen, text: ")"@ }
}

/// The token of a symbol.
pub open spec fn sym_token(s: Seq<char>) -> TokenView {
    TokenView { kind: Token::Sym, text: s }
}

/// The token of a string.
pub open spec fn str_token(s: Seq<char>) -> TokenView {
    TokenView { kind: Token::Str, text: s }
}

/// A text that can stand as a symbol.
pub open spec fn is_symbol(s: Seq<char>) -> bool {
    s.len() > 0 && forall|i: int| 0 <= i < s.len() ==> !ends_symbol(#[trigger] s[i])
}

/// Whatever follows `x`, it is cut into the tokens `t` first.
#[verifier::opaque]
pub open spec fn yields(x: Seq<char>, t: Seq<TokenView>) -> bool {
    forall|rest: Seq<char>| tokens(#[trigger] (x + rest)) == t + tokens(rest)
}

/// A text that ends a symbol before it, or nothing at all.
pub open spec fn separate(x: Seq<char>) -> bool {
    x.len() == 0 || ends_symbol(x[0])
}

/// Whatever follows `x` that ends a symbol, `x` is cut into the tokens `t` first.
#[verifier::opaque]
pub open spec fn opens(x: Seq<char>, t: Seq<TokenView>) -> bool {
    forall|rest: Seq<char>|
        separate(rest) ==> tokens(#[trigger] (x + rest)) == t + tokens(rest)
}

pub proof fn lemma_yields_opens(x: Seq<char>, t: Seq<TokenView>)
    requires
        yields(x, t),
    ensures
        opens(x, t),
{
    reveal(yields);
    reveal(opens);
}

/// What follows a text that is closed can be anything.
pub proof fn lemma_join(a: Seq<char>, s: Seq<TokenView>, b: Seq<char>, t: Seq<TokenView>)
    requires
        yields(a, s),
        yields(b, t),
    ensures
        yields(a + b, s + t),
{
    reveal(yields);
    assert forall|rest: Seq<char>| tokens(#[trigger] (a + b + rest)) == s + t + tokens(rest) by {
        assert(a + b + rest =~= a + (b + rest));
        assert(s + (t + tokens(rest)) =~= s + t + tokens(rest));
    }
}

/// A symbol may be left open at the end.
pub proof fn lemma_join_opens(a: Seq<char>, s: Seq<TokenView>, b: Seq<char>, t: Seq<TokenView>)
    requires
        yields(a, s),
        opens(b, t),
    ensures
        opens(a + b, s + t),
{
    reveal(yields);
    reveal(opens);
    assert forall|rest: Seq<char>| separate(rest) implies tokens(#[trigger] (a + b + rest)) == s + t
        + tokens(rest) by {
        assert(a + b + rest =~= a + (b + rest));
        assert(s + (t + tokens(rest)) =~= s + t + tokens(rest));
    }
}

/// A symbol that was left open is closed by what follows.
pub proof fn lemma_join_closes(a: Seq<char>, s: Seq<TokenView>, b: Seq<char>, t: Seq<TokenView>)
    requires
        opens(a, s),
        yields(b, t),
        b.len() > 0,
        separate(b),
    ensures
        yields(a + b, s + t),
{
    reveal(yields);
    reveal(opens);
    assert forall|rest: Seq<char>| tokens(#[trigger] (a + b + rest)) == s + t + tokens(rest) by {
        assert(a + b + rest =~= a + (b + rest));
        assert(separate(b + rest));
        assert(s + (t + tokens(rest)) =~= s + t + tokens(rest));
    }
}

/// A symbol that was left open may stay open.
pub proof fn lemma_join_both_open(a: Seq<char>, s: Seq<TokenView>, b: Seq<char>, t: Seq<TokenView>)
    requires
        opens(a, s),
        opens(b, t),
        separate(b),
    ensures
        opens(a + b, s + t),
{
    reveal(opens);
    assert forall|rest: Seq<char>| separate(rest) implies tokens(#[trigger] (a + b + rest)) == s + t
        + tokens(rest) by {
        assert(a + b + rest =~= a + (b + rest));
        assert(separate(b + rest)) by {
            if b.len() == 0 {
                assert(b + rest =~= rest);
            }
        }
        assert(s + (t + tokens(rest)) =~= s + t + tokens(rest));
    }
}

pub proof fn lemma_yields_nothing()
    ensures
        yields(Seq::empty(), Seq::empty()),
{
    reveal(yields);
    assert forall|rest: Seq<char>| tokens(#[trigger] (Seq::<char>::empty() + rest)) == Seq::<
        TokenView,
    >::empty() + tokens(rest) by {
        assert(Seq::<char>::empty() + rest =~= rest);
        assert(Seq::<TokenView>::empty() + tokens(rest) =~= tokens(rest));
    }
}

/// Blanks are no tokens.
pub proof fn lemma_yields_blanks(x: Seq<char>)
    requires
        forall|i: int| 0 <= i < x.len() ==> is_white(#[trigger] x[i]),
    ensures
        yields(x, Seq::empty()),
    decreases x.len(),
{
    if x.len() == 0 {
        lemma_yields_nothing();
        assert(x =~= Seq::<char>::empty());
    } else {
        lemma_yields_blanks(x.skip(1));
        reveal(yields);
        assert forall|rest: Seq<char>| tokens(#[trigger] (x + rest)) == Seq::<TokenView>::empty()
            + tokens(rest) by {
            assert((x + rest).skip(1) =~= x.skip(1) + rest);
            assert((x + rest)[0] == x[0]);
        }
    }
}

pub proof fn lemma_yields_open()
    ensures
        yields("("@, seq![open_token()]),
{
    reveal(yields);
    reveal_strlit("(");
    assert forall|rest: Seq<char>| tokens(#[trigger] ("("@ + rest)) == seq![open_token()] + tokens(
        rest,
    ) by {
        assert(("("@ + rest).skip(1) =~= rest);
        assert(("("@ + rest)[0] == '(');
    }
}

pub proof fn lemma_yields_close()
    ensures
        yields(")"@, seq![close_token()]),
        ")"@.len() == 1,
        separate(")"@),
{
    reveal(yields);
    reveal_strlit(")");
    assert forall|rest: Seq<char>| tokens(#[trigger] (")"@ + rest)) == seq![close_token()] + tokens(
        rest,
    ) by {
        assert((")"@ + rest).skip(1) =~= rest);
        assert((")"@ + rest)[0] == ')');
    }
}

proof fn lemma_symbol_len_of(s: Seq<char>, rest: Seq<char>)
    requires
        forall|i: int| 0 <= i < s.len() ==> !ends_symbol(#[trigger] s[i]),
        separate(rest),
    ensures
        symbol_len(s + rest) == s.len(),
    decreases s.len(),
{
    if s.len() == 0 {
        assert(s + rest =~= rest);
    } else {
        assert((s + rest).skip(1) =~= s.skip(1) + rest);
        assert((s + rest)[0] == s[0]);
        lemma_symbol_len_of(s.skip(1), rest);
    }
}

/// A symbol is one token, when something follows that ends it.
pub proof fn lemma_opens_symbol(s: Seq<char>)
    requires
        is_symbol(s),
    ensures
        opens(s, seq![sym_token(s)]),
{
    reveal(opens);
    assert forall|rest: Seq<char>| separate(rest) implies tokens(#[trigger] (s + rest)) == seq![
        sym_token(s),
    ] + tokens(rest) by {
        lemma_symbol_len_of(s, rest);
        assert((s + rest)[0] == s[0]);
        assert((s + rest).take(s.len() as int) =~= s);
        assert((s + rest).skip(s.len() as int) =~= rest);
    }
}

proof fn lemma_hex_digit(d: nat)
    requires
        d < 16,
    ensures
        hex_value(hex_digit_char(d)) == Some(d),
        hex_digit_char(d) != '}',
        hex_digit_char(d) != '+',
{
    let n = if d < 10 {
        (d + '0' as u32) as u32
    } else {
        (d - 10 + 'a' as u32) as u32
    };
    let c = hex_digit_char(d);
    assert(vstd::utf8::is_scalar(n));
    assert(c as u32 == n);
}

/// A number in hexadecimal is read as that number.
proof fn lemma_hex_text(n: nat)
    requires
        n <= u32::MAX,
    ensures
        hex_text(n).len() > 0,
        hex_text(n)[0] != '+',
        forall|i: int| 0 <= i < hex_text(n).len() ==> #[trigger] hex_text(n)[i] != '}',
        hex_digits_number(hex_text(n)) == Some(n),
    decreases n,
{
    let t = hex_text(n);
    if n < 16 {
        lemma_hex_digit(n);
        assert(t.drop_last() =~= Seq::<char>::empty());
        assert(t.last() == hex_digit_char(n));
        assert(hex_digits_number(t.drop_last()) == Some(0nat));
    } else {
        lemma_hex_digit(n % 16);
        lemma_hex_text(n / 16);
        let init = hex_text(n / 16);
        assert(t.drop_last() =~= init);
        assert(t.last() == hex_digit_char(n % 16));
        assert(t[0] == init[0]);
        assert(n / 16 * 16 + n % 16 == n);
        assert forall|i: int| 0 <= i < t.len() implies #[trigger] t[i] != '}' by {
            if i < init.len() {
                assert(t[i] == init[i]);
            }
        }
    }
}

proof fn lemma_brace_len(x: Seq<char>, rest: Seq<char>)
    requires
        forall|i: int| 0 <= i < x.len() ==> #[trigger] x[i] != '}',
    ensures
        brace_len(x + (seq!['}'] + rest)) == x.len(),
    decreases x.len(),
{
    let all = x + (seq!['}'] + rest);
    if x.len() == 0 {
        assert(all[0] == '}');
    } else {
        assert(all[0] == x[0]);
        assert(all.skip(1) =~= x.skip(1) + (seq!['}'] + rest));
        lemma_brace_len(x.skip(1), rest);
    }
}

/// A character that is written by its number is read as that character.
proof fn lemma_string_at_number(c: char, rest: Seq<char>)
    requires
        rest.len() > 0,
    ensures
        ({
            let x = seq!['\\', 'u', '{'] + hex_text(c as u32 as nat) + seq!['}'] + rest;
            string_at(x) == (seq![c] + string_at(rest).0, string_at(rest).1)
        }),
{
    let hex = hex_text(c as u32 as nat);
    let x = seq!['\\', 'u', '{'] + hex + seq!['}'] + rest;
    lemma_hex_text(c as u32 as nat);
    lemma_brace_len(hex, rest);
    assert(x[0] == '\\' && x[1] == 'u' && x[2] == '{');
    assert(x.skip(3) =~= hex + (seq!['}'] + rest));
    assert(x.skip(3).take(hex.len() as int) =~= hex);
    assert(after(x, hex.len() + 4) =~= rest);
    vstd::utf8::char_is_scalar(c);
    vstd::utf8::char_u32_cast(c, c as u32);
    assert(hex_number(hex) == Some(c as u32 as nat));
    assert(code_text(hex) == seq![c]);
}

proof fn lemma_string_at_escaped(s: Seq<char>, by_number: Seq<bool>, from: nat, rest: Seq<char>)
    requires
        from <= s.len(),
    ensures
        string_at(escaped(s, by_number, from) + (seq!['"'] + rest)) == (s.skip(from as int), rest),
    decreases s.len() - from,
{
    let x = escaped(s, by_number, from) + (seq!['"'] + rest);
    if from == s.len() {
        assert(x =~= seq!['"'] + rest);
        assert(x[0] == '"');
        assert(x.skip(1) =~= rest);
        assert(s.skip(from as int) =~= Seq::<char>::empty());
    } else {
        let tail = escaped(s, by_number, from + 1) + (seq!['"'] + rest);
        lemma_string_at_escaped(s, by_number, from + 1, rest);
        let c = s[from as int];
        let e = escape(c, by_number[from as int]);
        assert(x =~= e + tail);
        assert(s.skip(from as int) =~= seq![c] + s.skip(from as int + 1));
        if letter_escape(c) is Some {
            assert(x[0] == '\\');
            assert(x[1] == e[1]);
            assert(x.skip(2) =~= tail);
            assert(unescape(e[1]) == c);
        } else if ' ' <= c <= '~' || !by_number[from as int] {
            assert(x[0] == c);
            assert(x.skip(1) =~= tail);
        } else {
            lemma_string_at_number(c, tail);
        }
    }
}

/// A text in quotes is one token that holds the text.
pub proof fn lemma_yields_quoted(s: Seq<char>)
    ensures
        yields(quoted(s), seq![str_token(s)]),
        quoted(s).len() > 0,
        separate(quoted(s)),
{
    reveal(yields);
    assert(quoted(s)[0] == '"');
    assert forall|rest: Seq<char>| tokens(#[trigger] (quoted(s) + rest)) == seq![
        str_token(s),
    ] + tokens(rest) by {
        let x = quoted(s) + rest;
        assert(x[0] == '"');
        assert(x.skip(1) =~= escaped(s, numbered(s), 0) + (seq!['"'] + rest));
        lemma_string_at_escaped(s, numbered(s), 0, rest);
        assert(s.skip(0) =~= s);
    }
}

/// The quoted form of any text is one token, a string that holds the text.
pub proof fn law_quoted_is_one_token(s: Seq<char>)
    ensures
        tokens(quoted(s)) == seq![str_token(s)],
{
    lemma_yields_quoted(s);
    reveal(yields);
    assert(quoted(s) + Seq::<char>::empty() =~= quoted(s));
    assert(seq![str_token(s)] + tokens(Seq::empty()) =~= seq![str_token(s)]);
}

/// The quoted form of a text stands on one line.
pub proof fn lemma_quoted_one_line(s: Seq<char>)
    ensures
        !quoted(s).contains('\n'),
{
    lemma_escaped_one_line(s, numbered(s), 0);
    let e = escaped(s, numbered(s), 0);
    assert forall|i: int| 0 <= i < quoted(s).len() implies quoted(s)[i] != '\n' by {
        if 0 < i <= e.len() {
            assert(quoted(s)[i] == e[i - 1]);
        }
    }
}

proof fn lemma_hex_one_line(n: nat)
    ensures
        !hex_text(n).contains('\n'),
    decreases n,
{
    let t = hex_text(n);
    assert(hex_digit_char(n % 16) != '\n') by {
        lemma_hex_digit(n % 16);
        assert(hex_value('\n') is None);
    }
    if n >= 16 {
        lemma_hex_one_line(n / 16);
        assert forall|i: int| 0 <= i < t.len() implies t[i] != '\n' by {
            if i < t.len() - 1 {
                assert(t[i] == hex_text(n / 16)[i]);
            }
        }
    } else {
        assert(n % 16 == n);
    }
}

proof fn lemma_escaped_one_line(s: Seq<char>, by_number: Seq<bool>, from: nat)
    ensures
        !escaped(s, by_number, from).contains('\n'),
    decreases s.len() - from,
{
    if from < s.len() {
        lemma_escaped_one_line(s, by_number, from + 1);
        let c = s[from as int];
        let e = escape(c, by_number[from as int]);
        let t = escaped(s, by_number, from + 1);
        lemma_hex_one_line(c as u32 as nat);
        let hex = hex_text(c as u32 as nat);
        assert forall|i: int| 0 <= i < e.len() implies e[i] != '\n' by {
            if letter_escape(c) is None && !(' ' <= c <= '~' || !by_number[from as int]) {
                if 3 <= i < 3 + hex.len() {
                    assert(e[i] == hex[i - 3]);
                }
            }
        }
        assert forall|i: int| 0 <= i < (e + t).len() implies (e + t)[i] != '\n' by {
            if i < e.len() {
                assert((e + t)[i] == e[i]);
            } else {
                assert((e + t)[i] == t[i - e.len()]);
            }
        }
    }
}

// ── Lists ────────────────────────────────────────────────────────────────────

/// The text that opens a list headed by a symbol, after blanks.
pub proof fn lemma_head(blanks: Seq<char>, name: Seq<char>)
    requires
        forall|i: int| 0 <= i < blanks.len() ==> is_white(#[trigger] blanks[i]),
        is_symbol(name),
    ensures
        opens(blanks + "("@ + name, seq![open_token(), sym_token(name)]),
{
    lemma_yields_blanks(blanks);
    lemma_yields_open();
    lemma_join(blanks, Seq::empty(), "("@, seq![open_token()]);
    lemma_opens_symbol(name);
    lemma_join_opens(
        blanks + "("@,
        Seq::<TokenView>::empty() + seq![open_token()],
        name,
        seq![sym_token(name)],
    );
    assert(Seq::<TokenView>::empty() + seq![open_token()] + seq![sym_token(name)] =~= seq![
        open_token(),
        sym_token(name),
    ]);
}

/// The same with a blank after the symbol.
pub proof fn lemma_head_blank(blanks: Seq<char>, name: Seq<char>, end: Seq<char>)
    requires
        forall|i: int| 0 <= i < blanks.len() ==> is_white(#[trigger] blanks[i]),
        is_symbol(name),
        end.len() > 0,
        forall|i: int| 0 <= i < end.len() ==> is_white(#[trigger] end[i]),
    ensures
        yields(blanks + "("@ + name + end, seq![open_token(), sym_token(name)]),
{
    lemma_head(blanks, name);
    lemma_yields_blanks(end);
    lemma_join_closes(
        blanks + "("@ + name,
        seq![open_token(), sym_token(name)],
        end,
        Seq::empty(),
    );
    assert(seq![open_token(), sym_token(name)] + Seq::<TokenView>::empty() =~= seq![
        open_token(),
        sym_token(name),
    ]);
}

/// The tokens of a node.
pub open spec fn flat(node: SexpView) -> Seq<TokenView>
    decreases node,
{
    match node {
        SexpView::Sym(s) => seq![sym_token(s)],
        SexpView::Str(s) => seq![str_token(s)],
        SexpView::List(items) => seq![open_token()] + flat_all(items) + seq![close_token()],
    }
}

/// The tokens of nodes, one after the other.
pub open spec fn flat_all(items: Seq<SexpView>) -> Seq<TokenView>
    decreases items,
{
    if items.len() == 0 {
        Seq::empty()
    } else {
        flat_all(items.drop_last()) + flat(items.last())
    }
}

pub proof fn lemma_flat_push(items: Seq<SexpView>, last: SexpView)
    ensures
        flat_all(items.push(last)) == flat_all(items) + flat(last),
{
    assert(items.push(last).drop_last() =~= items);
}

pub proof fn lemma_flat_join(a: Seq<SexpView>, b: Seq<SexpView>)
    ensures
        flat_all(a + b) == flat_all(a) + flat_all(b),
    decreases b.len(),
{
    if b.len() == 0 {
        assert(a + b =~= a);
        assert(flat_all(a) + flat_all(b) =~= flat_all(a));
    } else {
        lemma_flat_join(a, b.drop_last());
        assert((a + b).drop_last() =~= a + b.drop_last());
        assert((a + b).last() == b.last());
        assert(flat_all(a) + flat_all(b.drop_last()) + flat(b.last()) =~= flat_all(a) + flat_all(b));
    }
}

pub proof fn lemma_flat_one(node: SexpView)
    ensures
        flat_all(seq![node]) == flat(node),
{
    assert(seq![node].drop_last() =~= Seq::<SexpView>::empty());
    assert(flat_all(Seq::<SexpView>::empty()) =~= Seq::<TokenView>::empty());
    assert(flat_all(seq![node]) == flat_all(seq![node].drop_last()) + flat(seq![node].last()));
    assert(flat_all(seq![node]) =~= flat(node));
}

/// The tokens of a node are read as that node, whatever follows.
pub proof fn lemma_node_read_back(node: SexpView, rest: Seq<TokenView>)
    ensures
        node_at(flat(node) + rest) == Ok::<(SexpView, nat), Reason>((node, flat(node).len())),
        flat(node).len() > 0,
        flat(node)[0].kind != Token::RParen,
    decreases node,
{
    let t = flat(node) + rest;
    match node {
        SexpView::List(items) => {
            lemma_nodes_read_back(items, rest);
            assert(t[0] == open_token());
            assert(t.skip(1) =~= flat_all(items) + (seq![close_token()] + rest));
        },
        _ => {
            assert(t[0] == flat(node)[0]);
        },
    }
}

proof fn lemma_nodes_read_back(items: Seq<SexpView>, rest: Seq<TokenView>)
    ensures
        nodes_at(flat_all(items) + (seq![close_token()] + rest)) == Ok::<
            (Seq<SexpView>, nat),
            Reason,
        >((items, flat_all(items).len() + 1)),
    decreases items,
{
    let t = flat_all(items) + (seq![close_token()] + rest);
    if items.len() == 0 {
        assert(t =~= seq![close_token()] + rest);
        assert(t[0] == close_token());
        assert(items =~= Seq::<SexpView>::empty());
    } else {
        let first = items[0];
        let more = items.skip(1);
        assert(items =~= seq![first] + more);
        lemma_flat_join(seq![first], more);
        lemma_flat_one(first);
        let after = flat_all(more) + (seq![close_token()] + rest);
        assert(t =~= flat(first) + after);
        lemma_node_read_back(first, after);
        assert(t[0] == flat(first)[0]);
        assert(t.skip(flat(first).len() as int) =~= after);
        lemma_nodes_read_back(more, rest);
    }
}

/// A list: what opens it, its items, and the closing parenthesis.
pub proof fn lemma_list(
    head: Seq<char>,
    name: Seq<char>,
    body: Seq<char>,
    items: Seq<SexpView>,
)
    requires
        yields(head, seq![open_token(), sym_token(name)]) || (opens(
            head,
            seq![open_token(), sym_token(name)],
        ) && separate(body)),
        yields(body, flat_all(items)),
    ensures
        yields(head + body + ")"@, flat(SexpView::List(seq![SexpView::Sym(name)] + items))),
{
    let h = seq![open_token(), sym_token(name)];
    lemma_yields_close();
    if yields(head, h) {
        lemma_join(head, h, body, flat_all(items));
        lemma_join(head + body, h + flat_all(items), ")"@, seq![close_token()]);
    } else {
        lemma_yields_opens(body, flat_all(items));
        lemma_join_both_open(head, h, body, flat_all(items));
        lemma_join_closes(head + body, h + flat_all(items), ")"@, seq![close_token()]);
    }
    lemma_flat_join(seq![SexpView::Sym(name)], items);
    lemma_flat_one(SexpView::Sym(name));
    assert(h + flat_all(items) + seq![close_token()] =~= flat(
        SexpView::List(seq![SexpView::Sym(name)] + items),
    ));
}

/// A blank, or nothing.
pub proof fn lemma_gap(gap: Seq<char>)
    requires
        gap == " "@ || gap == Seq::<char>::empty(),
    ensures
        yields(gap, Seq::empty()),
{
    reveal_strlit(" ");
    lemma_yields_blanks(gap);
}

/// A text, a gap, and a text that follows.
pub proof fn lemma_join_gap(
    a: Seq<char>,
    s: Seq<TokenView>,
    gap: Seq<char>,
    b: Seq<char>,
    t: Seq<TokenView>,
)
    requires
        yields(a, s),
        gap == " "@ || gap == Seq::<char>::empty(),
        yields(b, t),
    ensures
        yields(a + gap + b, s + t),
{
    lemma_gap(gap);
    lemma_join(a, s, gap, Seq::empty());
    assert(s + Seq::<TokenView>::empty() =~= s);
    lemma_join(a + gap, s, b, t);
}

/// What opens an entry with a name: blanks, a word, and the name.
pub proof fn lemma_named(lit: Seq<char>, blanks: Seq<char>, word: Seq<char>, name: Seq<char>)
    requires
        is_symbol(word),
        is_symbol(name),
        forall|i: int| 0 <= i < blanks.len() ==> is_white(#[trigger] blanks[i]),
        lit == blanks + "("@ + word + " "@,
    ensures
        opens(lit + name, seq![open_token(), sym_token(word), sym_token(name)]),
{
    reveal_strlit(" ");
    lemma_head_blank(blanks, word, " "@);
    lemma_opens_symbol(name);
    lemma_join_opens(lit, seq![open_token(), sym_token(word)], name, seq![sym_token(name)]);
    assert(seq![open_token(), sym_token(word)] + seq![sym_token(name)] =~= seq![
        open_token(),
        sym_token(word),
        sym_token(name),
    ]);
}

/// The nodes of a list that opens with a word and a name.
pub proof fn lemma_named_flat(word: Seq<char>, name: Seq<char>, items: Seq<SexpView>)
    ensures
        flat(SexpView::List(seq![SexpView::Sym(word), SexpView::Sym(name)] + items)) == seq![
            open_token(),
            sym_token(word),
            sym_token(name),
        ] + flat_all(items) + seq![close_token()],
{
    let heads = seq![SexpView::Sym(word), SexpView::Sym(name)];
    lemma_flat_one(SexpView::Sym(word));
    lemma_flat_push(seq![SexpView::Sym(word)], SexpView::Sym(name));
    assert(seq![SexpView::Sym(word)].push(SexpView::Sym(name)) =~= heads);
    lemma_flat_join(heads, items);
    assert(flat(SexpView::List(heads + items)) =~= seq![
        open_token(),
        sym_token(word),
        sym_token(name),
    ] + flat_all(items) + seq![close_token()]);
}

/// What closes a field of a repository and opens the next.
pub proof fn lemma_next_field(lit: Seq<char>, field: Seq<char>)
    requires
        is_symbol(field),
        lit == ")"@ + (" "@ + "("@ + field + " "@),
    ensures
        yields(lit, seq![close_token(), open_token(), sym_token(field)]),
{
    reveal_strlit(" ");
    lemma_head_blank(" "@, field, " "@);
    lemma_yields_close();
    lemma_join(
        ")"@,
        seq![close_token()],
        " "@ + "("@ + field + " "@,
        seq![open_token(), sym_token(field)],
    );
    assert(seq![close_token()] + seq![open_token(), sym_token(field)] =~= seq![
        close_token(),
        open_token(),
        sym_token(field),
    ]);
}

/// The tokens of four fields, grouped by what was written and by nodes.
pub proof fn lemma_sync_tokens(
    h: Seq<TokenView>,
    s1: TokenView,
    u: Seq<TokenView>,
    s2: TokenView,
    d: Seq<TokenView>,
    s3: TokenView,
    b: Seq<TokenView>,
    s4: TokenView,
    g: Seq<TokenView>,
)
    ensures
        ({
            let (o, c) = (open_token(), close_token());
            h + seq![o, s1] + u + seq![c, o, s2] + d + seq![c, o, s3] + b + seq![c, o, s4] + g
                + seq![c, c] == h + ((seq![o, s1] + u + seq![c]) + (seq![o, s2] + d + seq![c]) + (
            seq![o, s3] + b + seq![c]) + (seq![o, s4] + g + seq![c])) + seq![c]
        }),
{
    let (o, c) = (open_token(), close_token());
    let a = h + seq![o, s1] + u;
    let f1 = seq![o, s1] + u + seq![c];
    assert(a + seq![c, o, s2] =~= h + f1 + seq![o, s2]);
    let a2 = h + f1 + seq![o, s2] + d;
    let f2 = seq![o, s2] + d + seq![c];
    assert(a2 + seq![c, o, s3] =~= h + f1 + f2 + seq![o, s3]);
    let a3 = h + f1 + f2 + seq![o, s3] + b;
    let f3 = seq![o, s3] + b + seq![c];
    assert(a3 + seq![c, o, s4] =~= h + f1 + f2 + f3 + seq![o, s4]);
    let a4 = h + f1 + f2 + f3 + seq![o, s4] + g;
    let f4 = seq![o, s4] + g + seq![c];
    assert(a4 + seq![c, c] =~= h + f1 + f2 + f3 + f4 + seq![c]);
    assert(h + f1 + f2 + f3 + f4 =~= h + (f1 + f2 + f3 + f4));
}

} // verus!
