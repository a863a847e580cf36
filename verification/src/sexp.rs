//! S-expressions: the textual layer under the kirufile format. A text is cut
//! into tokens, and the tokens are read as a tree of symbols, strings and lists.
use vstd::prelude::*;
use crate::text::{chars_of, decimal, decimal_text, is_white, same, text_of};

verus! {

broadcast use vstd::string::group_string_axioms;

// ── Quoting ──────────────────────────────────────────────────────────────────

/// Of each character of a text, whether `{:?}` writes it by its number. For a
/// character that is written otherwise in any case it does not matter.
pub uninterp spec fn numbered(s: Seq<char>) -> Seq<bool>;

/// The letter or sign that stands for a character after a backslash.
pub open spec fn letter_escape(c: char) -> Option<char> {
    if c == '\\' {
        Some('\\')
    } else if c == '"' {
        Some('"')
    } else if c == '\n' {
        Some('n')
    } else if c == '\t' {
        Some('t')
    } else if c == '\r' {
        Some('r')
    } else if c == '\0' {
        Some('0')
    } else {
        None
    }
}

/// The lower-case hexadecimal digit with a value.
pub open spec fn hex_digit_char(d: nat) -> char {
    if d < 10 {
        (d + '0' as u32) as u32 as char
    } else {
        (d - 10 + 'a' as u32) as u32 as char
    }
}

/// A number in lower-case hexadecimal, without leading zeros.
pub open spec fn hex_text(n: nat) -> Seq<char>
    decreases n,
{
    if n < 16 {
        seq![hex_digit_char(n)]
    } else {
        hex_text(n / 16).push(hex_digit_char(n % 16))
    }
}

/// A character as it stands inside quotes: by its letter where it has one, by
/// its number where that is asked for, and otherwise, as all other printable
/// ASCII, as it is.
pub open spec fn escape(c: char, by_number: bool) -> Seq<char> {
    match letter_escape(c) {
        Some(e) => seq!['\\', e],
        None => if ' ' <= c <= '~' || !by_number {
            seq![c]
        } else {
            seq!['\\', 'u', '{'] + hex_text(c as u32 as nat) + seq!['}']
        },
    }
}

/// The characters of a text from one on, as they stand inside quotes.
pub open spec fn escaped(s: Seq<char>, by_number: Seq<bool>, from: nat) -> Seq<char>
    decreases s.len() - from,
{
    if from >= s.len() {
        Seq::empty()
    } else {
        escape(s[from as int], by_number[from as int]) + escaped(s, by_number, from + 1)
    }
}

/// A text in quotes.
pub open spec fn quoted_by(s: Seq<char>, by_number: Seq<bool>) -> Seq<char> {
    seq!['"'] + escaped(s, by_number, 0) + seq!['"']
}

/// A text in quotes as a kirufile holds it.
pub open spec fn quoted(s: Seq<char>) -> Seq<char> {
    quoted_by(s, numbered(s))
}

/// The `Debug` form of a string, as `format!("{:?}", s)` gives it: in double
/// quotes, each character in turn. Backslash, double quote, newline, tab,
/// carriage return and the null character are escaped by a backslash and one
/// more character; other printable ASCII stands as it is; any other character
/// stands as it is or as `\u{..}` with its number in lower-case hexadecimal.
/// Which of those two it is depends on the text alone and is not spelled out.
#[verifier::external_body]
pub(crate) fn quote_string(s: &str) -> (r: String)
    ensures
        r@ == quoted_by(s@, numbered(s@)),
{
    format!("{:?}", s)
}

// ── Tokens ───────────────────────────────────────────────────────────────────

/// What kind of token a piece of text is.
#[derive(Debug, Clone, Copy, PartialEq, Eq, Structural)]
pub enum Token {
    LParen,
    RParen,
    Sym,
    Str,
}

/// A token with the text it stands for.
pub struct TokenView {
    pub kind: Token,
    pub text: Seq<char>,
}

/// The characters that end a symbol.
pub open spec fn ends_symbol(c: char) -> bool {
    is_white(c) || c == '(' || c == ')' || c == '"'
}

/// How many characters at the start of `s` belong to one symbol.
pub open spec fn symbol_len(s: Seq<char>) -> nat
    decreases s.len(),
{
    if s.len() == 0 || ends_symbol(s[0]) {
        0
    } else {
        1 + symbol_len(s.skip(1))
    }
}

/// How many characters at the start of `s` come before a closing brace.
pub open spec fn brace_len(s: Seq<char>) -> nat
    decreases s.len(),
{
    if s.len() == 0 || s[0] == '}' {
        0
    } else {
        1 + brace_len(s.skip(1))
    }
}

/// The value of a hexadecimal digit.
pub open spec fn hex_value(c: char) -> Option<nat> {
    if '0' <= c <= '9' {
        Some((c as u32 - '0' as u32) as nat)
    } else if 'a' <= c <= 'f' {
        Some((c as u32 - 'a' as u32 + 10) as nat)
    } else if 'A' <= c <= 'F' {
        Some((c as u32 - 'A' as u32 + 10) as nat)
    } else {
        None
    }
}

/// The number that hexadecimal digits stand for, if it is below 2^32.
pub open spec fn hex_digits_number(s: Seq<char>) -> Option<nat>
    decreases s.len(),
{
    if s.len() == 0 {
        Some(0)
    } else {
        match (hex_digits_number(s.drop_last()), hex_value(s.last())) {
            (Some(v), Some(d)) => if v * 16 + d <= u32::MAX {
                Some(v * 16 + d)
            } else {
                None
            },
            _ => None,
        }
    }
}

/// The number that a text stands for in hexadecimal: digits, after a `+` or not.
pub open spec fn hex_number(s: Seq<char>) -> Option<nat> {
    if s.len() == 0 {
        None
    } else if s.len() > 1 && s[0] == '+' {
        hex_digits_number(s.skip(1))
    } else {
        hex_digits_number(s)
    }
}

/// What a `\u{..}` escape adds to a string: the character with that number, or
/// nothing where there is no such character.
pub open spec fn code_text(hex: Seq<char>) -> Seq<char> {
    match hex_number(hex) {
        Some(n) => if vstd::utf8::is_scalar(n as u32) {
            seq![n as u32 as char]
        } else {
            Seq::empty()
        },
        None => Seq::empty(),
    }
}

/// The character that a backslash and `c` stand for.
pub open spec fn unescape(c: char) -> char {
    if c == 'n' {
        '\n'
    } else if c == 't' {
        '\t'
    } else if c == 'r' {
        '\r'
    } else if c == '0' {
        '\0'
    } else {
        c
    }
}

/// What is left of `s` after its first `n` characters.
pub open spec fn after(s: Seq<char>, n: nat) -> Seq<char> {
    if n < s.len() {
        s.skip(n as int)
    } else {
        Seq::empty()
    }
}

/// Reads a string whose opening quote came just before `s`: what it holds, and
/// what follows its closing quote. A text that ends first closes the string.
pub open spec fn string_at(s: Seq<char>) -> (Seq<char>, Seq<char>)
    decreases s.len(),
{
    if s.len() == 0 {
        (Seq::empty(), Seq::empty())
    } else if s[0] == '"' {
        (Seq::empty(), s.skip(1))
    } else if s[0] != '\\' {
        let (text, rest) = string_at(s.skip(1));
        (seq![s[0]] + text, rest)
    } else if s.len() == 1 {
        (Seq::empty(), Seq::empty())
    } else if s[1] != 'u' {
        let (text, rest) = string_at(s.skip(2));
        (seq![unescape(s[1])] + text, rest)
    } else if s.len() > 2 && s[2] == '{' {
        let n = brace_len(s.skip(3));
        let (text, rest) = string_at(after(s, n + 4));
        (code_text(s.skip(3).take(n as int)) + text, rest)
    } else {
        string_at(s.skip(2))
    }
}

proof fn lemma_string_at_shorter(s: Seq<char>)
    ensures
        string_at(s).1.len() <= s.len(),
    decreases s.len(),
{
    if s.len() > 0 && s[0] != '"' {
        if s[0] != '\\' {
            lemma_string_at_shorter(s.skip(1));
        } else if s.len() > 1 {
            if s[1] == 'u' && s.len() > 2 && s[2] == '{' {
                lemma_string_at_shorter(after(s, brace_len(s.skip(3)) + 4));
            } else {
                lemma_string_at_shorter(s.skip(2));
            }
        }
    }
}

proof fn lemma_symbol_len(s: Seq<char>)
    ensures
        symbol_len(s) <= s.len(),
    decreases s.len(),
{
    if s.len() > 0 {
        lemma_symbol_len(s.skip(1));
    }
}

/// The tokens of a text.
pub open spec fn tokens(s: Seq<char>) -> Seq<TokenView>
    decreases s.len(),
    via tokens_decreases
{
    if s.len() == 0 {
        Seq::empty()
    } else if is_white(s[0]) {
        tokens(s.skip(1))
    } else if s[0] == '(' {
        seq![TokenView { kind: Token::LParen, text: "("@ }] + tokens(s.skip(1))
    } else if s[0] == ')' {
        seq![TokenView { kind: Token::RParen, text: ")"@ }] + tokens(s.skip(1))
    } else if s[0] == '"' {
        let (text, rest) = string_at(s.skip(1));
        seq![TokenView { kind: Token::Str, text }] + tokens(rest)
    } else {
        let n = symbol_len(s);
        seq![TokenView { kind: Token::Sym, text: s.take(n as int) }] + tokens(s.skip(n as int))
    }
}

#[via_fn]
proof fn tokens_decreases(s: Seq<char>) {
    if s.len() > 0 && s[0] == '"' {
        lemma_string_at_shorter(s.skip(1));
    } else {
        lemma_symbol_len(s);
    }
}

/// The views of a list of tokens.
pub open spec fn token_views(v: Seq<(Token, String)>) -> Seq<TokenView> {
    Seq::new(v.len(), |i: int| TokenView { kind: v[i].0, text: v[i].1@ })
}

fn hex_digit(c: char) -> (r: Option<u32>)
    ensures
        match r {
            Some(d) => hex_value(c) == Some(d as nat) && d < 16,
            None => hex_value(c) is None,
        },
{
    if '0' <= c && c <= '9' {
        Some(c as u32 - '0' as u32)
    } else if 'a' <= c && c <= 'f' {
        Some(c as u32 - 'a' as u32 + 10)
    } else if 'A' <= c && c <= 'F' {
        Some(c as u32 - 'A' as u32 + 10)
    } else {
        None
    }
}

proof fn lemma_hex_none(s: Seq<char>, n: int)
    requires
        0 <= n <= s.len(),
        hex_digits_number(s.take(n)) is None,
    ensures
        hex_digits_number(s) is None,
    decreases s.len(),
{
    if n < s.len() {
        assert(s.drop_last().take(n) =~= s.take(n));
        lemma_hex_none(s.drop_last(), n);
    } else {
        assert(s.take(n) =~= s);
    }
}

/// Read the characters from `from` up to `to` as a hexadecimal number.
fn parse_hex(chars: &Vec<char>, from: usize, to: usize) -> (r: Option<u32>)
    requires
        from <= to <= chars@.len(),
    ensures
        hex_number(chars@.subrange(from as int, to as int)) == match r {
            Some(n) => Some(n as nat),
            None => None,
        },
{
    let ghost all = chars@.subrange(from as int, to as int);
    if from == to {
        return None;
    }
    let start: usize = if to - from > 1 && chars[from] == '+' {
        from + 1
    } else {
        from
    };
    let ghost body = chars@.subrange(start as int, to as int);
    assert(start == from ==> body =~= all);
    assert(start == from + 1 ==> body =~= all.skip(1));
    let mut n: u32 = 0;
    let mut i: usize = start;
    while i < to
        invariant
            from <= start <= i <= to <= chars@.len(),
            body == chars@.subrange(start as int, to as int),
            hex_number(chars@.subrange(from as int, to as int)) == hex_digits_number(body),
            hex_digits_number(body.take(i - start)) == Some(n as nat),
        decreases to - i,
    {
        let ghost next = body.take(i + 1 - start);
        proof {
            assert(next.drop_last() =~= body.take(i - start));
            assert(next.last() == chars@[i as int]);
            if hex_digits_number(next) is None {
                lemma_hex_none(body, i + 1 - start);
            }
        }
        match hex_digit(chars[i]) {
            None => {
                return None;
            },
            Some(d) => {
                if n > 0x0fff_ffff {
                    return None;
                }
                n = n * 16 + d;
            },
        }
        i += 1;
    }
    assert(body.take(i - start) =~= body);
    Some(n)
}

fn exec_unescape(c: char) -> (r: char)
    ensures
        r == unescape(c),
{
    match c {
        'n' => '\n',
        't' => '\t',
        'r' => '\r',
        '0' => '\0',
        _ => c,
    }
}

/// Read the string whose opening quote stands before position `from`: what it
/// holds, and the position after it.
fn read_string(chars: &Vec<char>, from: usize) -> (r: (String, usize))
    requires
        from <= chars@.len(),
    ensures
        from <= r.1 <= chars@.len(),
        string_at(chars@.skip(from as int)) == (r.0@, chars@.skip(r.1 as int)),
{
    let mut s = String::new();
    let mut i: usize = from;
    let ghost whole = string_at(chars@.skip(from as int));
    assert(s@ + whole.0 =~= whole.0);
    while i < chars.len()
        invariant
            from <= i <= chars@.len(),
            whole == string_at(chars@.skip(from as int)),
            whole.0 == s@ + string_at(chars@.skip(i as int)).0,
            whole.1 == string_at(chars@.skip(i as int)).1,
        decreases chars@.len() - i,
    {
        let ghost cur = chars@.skip(i as int);
        let ghost done = s@;
        let c = chars[i];
        if c == '"' {
            assert(cur.skip(1) =~= chars@.skip(i + 1));
            assert(whole.0 =~= s@);
            return (s, i + 1);
        }
        if c != '\\' {
            s.push(c);
            i += 1;
            proof {
                assert(cur.skip(1) =~= chars@.skip(i as int));
                let t = string_at(chars@.skip(i as int)).0;
                assert(done + (seq![c] + t) =~= s@ + t);
            }
        } else if i + 1 >= chars.len() {
            assert(cur.len() == 1);
            assert(whole.0 =~= s@);
            assert(whole.1 =~= chars@.skip(chars@.len() as int));
            return (s, chars.len());
        } else {
            let e = chars[i + 1];
            assert(cur[1] == e);
            if e != 'u' {
                s.push(exec_unescape(e));
                i += 2;
                proof {
                    assert(cur.skip(2) =~= chars@.skip(i as int));
                    let t = string_at(chars@.skip(i as int)).0;
                    assert(done + (seq![unescape(e)] + t) =~= s@ + t);
                }
            } else if i + 2 < chars.len() && chars[i + 2] == '{' {
                let start: usize = i + 3;
                let mut j: usize = start;
                assert(cur.skip(3) =~= chars@.skip(start as int));
                let ghost tail = cur.skip(3);
                while j < chars.len() && chars[j] != '}'
                    invariant
                        i + 3 == start,
                        start <= j <= chars@.len(),
                        tail == chars@.skip(start as int),
                        brace_len(tail) == (j - start) + brace_len(chars@.skip(j as int)),
                    decreases chars@.len() - j,
                {
                    assert(chars@.skip(j as int).skip(1) =~= chars@.skip(j + 1));
                    j += 1;
                }
                assert(brace_len(chars@.skip(j as int)) == 0);
                assert(tail.take(j - start) =~= chars@.subrange(start as int, j as int));
                let ghost hex = chars@.subrange(start as int, j as int);
                if let Some(n) = parse_hex(chars, start, j) {
                    if let Some(ch) = char::from_u32(n) {
                        s.push(ch);
                        proof {
                            vstd::utf8::char_u32_cast(ch, n);
                        }
                        assert(code_text(hex) =~= seq![ch]);
                    }
                }
                assert(s@ =~= done + code_text(hex));
                i = if j < chars.len() {
                    j + 1
                } else {
                    chars.len()
                };
                proof {
                    assert(after(cur, brace_len(tail) + 4) =~= chars@.skip(i as int));
                    let t = string_at(chars@.skip(i as int)).0;
                    assert(done + (code_text(hex) + t) =~= s@ + t);
                }
            } else {
                i += 2;
                assert(cur.skip(2) =~= chars@.skip(i as int));
            }
        }
    }
    assert(chars@.skip(i as int) =~= Seq::<char>::empty());
    assert(whole.0 =~= s@);
    (s, i)
}

/// Cut a kirufile into tokens.
pub fn tokenize_kirufile(src: &str) -> (r: Result<Vec<(Token, String)>, String>)
    ensures
        r matches Ok(v) && token_views(v@) == tokens(src@),
{
    let chars = chars_of(src);
    let mut out: Vec<(Token, String)> = Vec::new();
    let mut i: usize = 0;
    proof {
        assert(src@.skip(0) =~= src@);
        assert(token_views(out@) + tokens(src@) =~= tokens(src@));
    }
    while i < chars.len()
        invariant
            chars@ == src@,
            i <= chars@.len(),
            tokens(src@) == token_views(out@) + tokens(src@.skip(i as int)),
        decreases chars@.len() - i,
    {
        let ghost cur = src@.skip(i as int);
        let ghost done = token_views(out@);
        let c = chars[i];
        if c.is_whitespace() {
            i += 1;
            assert(cur.skip(1) =~= src@.skip(i as int));
            continue;
        }
        match c {
            '(' => {
                out.push((Token::LParen, "(".to_owned()));
                i += 1;
                assert(cur.skip(1) =~= src@.skip(i as int));
            },
            ')' => {
                out.push((Token::RParen, ")".to_owned()));
                i += 1;
                assert(cur.skip(1) =~= src@.skip(i as int));
            },
            '"' => {
                let (s, next) = read_string(&chars, i + 1);
                assert(cur.skip(1) =~= src@.skip(i + 1));
                out.push((Token::Str, s));
                i = next;
            },
            _ => {
                let start = i;
                while i < chars.len() && !(chars[i].is_whitespace() || chars[i] == '(' || chars[i]
                    == ')' || chars[i] == '"')
                    invariant
                        chars@ == src@,
                        start <= i <= chars@.len(),
                        cur == src@.skip(start as int),
                        symbol_len(cur) == (i - start) + symbol_len(src@.skip(i as int)),
                    decreases chars@.len() - i,
                {
                    assert(src@.skip(i as int).skip(1) =~= src@.skip(i + 1));
                    i += 1;
                }
                assert(symbol_len(src@.skip(i as int)) == 0);
                assert(symbol_len(cur) > 0);
                assert(cur.take(i - start) =~= src@.subrange(start as int, i as int));
                assert(cur.skip(i - start) =~= src@.skip(i as int));
                out.push((Token::Sym, text_of(&chars, start, i)));
            },
        }
        proof {
            let t = tokens(src@.skip(i as int));
            let last = token_views(out@).last();
            assert(token_views(out@) =~= done.push(last));
            assert(done + (seq![last] + t) =~= token_views(out@) + t);
        }
    }
    proof {
        assert(src@.skip(i as int) =~= Seq::<char>::empty());
        assert(tokens(src@) =~= token_views(out@));
    }
    Ok(out)
}

// ── Trees ────────────────────────────────────────────────────────────────────

/// A node of the tree that a kirufile stands for.
#[derive(Debug)]
pub enum Sexp {
    Sym(String),
    Str(String),
    List(Vec<Sexp>),
}

/// A node, by its contents.
pub enum SexpView {
    Sym(Seq<char>),
    Str(Seq<char>),
    List(Seq<SexpView>),
}

/// The contents of a node.
pub open spec fn sexp_view(s: Sexp) -> SexpView
    decreases s,
{
    match s {
        Sexp::Sym(t) => SexpView::Sym(t@),
        Sexp::Str(t) => SexpView::Str(t@),
        Sexp::List(items) => SexpView::List(
            Seq::new(
                items@.len(),
                |i: int|
                    if 0 <= i < items@.len() {
                        sexp_view(items@[i])
                    } else {
                        arbitrary()
                    },
            ),
        ),
    }
}

/// The contents of a list of nodes.
pub open spec fn sexp_views(items: Seq<Sexp>) -> Seq<SexpView> {
    Seq::new(items.len(), |i: int| sexp_view(items[i]))
}

impl Sexp {
    pub open spec fn view(&self) -> SexpView {
        sexp_view(*self)
    }
}

/// The error of a reader, as text.
pub type Reason = Seq<char>;

/// Reads one node from the start of the tokens: the node, and how many tokens
/// it takes.
pub open spec fn node_at(t: Seq<TokenView>) -> Result<(SexpView, nat), Reason>
    decreases t.len(), 0int,
{
    if t.len() == 0 {
        Err("unexpected end of kirufile"@)
    } else {
        match t[0].kind {
            Token::LParen => match nodes_at(t.skip(1)) {
                Ok((items, n)) => Ok((SexpView::List(items), n + 1)),
                Err(e) => Err(e),
            },
            Token::RParen => Err("unexpected `)` in kirufile"@),
            Token::Sym => Ok((SexpView::Sym(t[0].text), 1)),
            Token::Str => Ok((SexpView::Str(t[0].text), 1)),
        }
    }
}

/// Reads nodes up to the closing parenthesis: the nodes, and how many tokens
/// they take with the parenthesis.
pub open spec fn nodes_at(t: Seq<TokenView>) -> Result<(Seq<SexpView>, nat), Reason>
    decreases t.len(), 1int,
{
    if t.len() == 0 {
        Err("unterminated list in kirufile"@)
    } else if t[0].kind == Token::RParen {
        Ok((Seq::empty(), 1))
    } else {
        match node_at(t) {
            Err(e) => Err(e),
            Ok((node, n)) => if 0 < n <= t.len() {
                match nodes_at(t.skip(n as int)) {
                    Err(e) => Err(e),
                    Ok((more, m)) => Ok((seq![node] + more, n + m)),
                }
            } else {
                arbitrary()
            },
        }
    }
}

/// A node takes at least one token, and no more than there are.
proof fn lemma_node_at_len(t: Seq<TokenView>)
    ensures
        node_at(t) matches Ok((_, n)) ==> 0 < n <= t.len(),
        nodes_at(t) matches Ok((_, n)) ==> 0 < n <= t.len(),
    decreases t.len(),
{
    if t.len() > 0 {
        lemma_node_at_len(t.skip(1));
        if let Ok((node, n)) = node_at(t) {
            lemma_node_at_len(t.skip(n as int));
        }
    }
}

/// Read one node from the tokens at `*pos`, and move `*pos` past it.
pub fn parse_sexp_tokens(toks: &Vec<(Token, String)>, pos: &mut usize) -> (r: Result<Sexp, String>)
    requires
        *old(pos) <= toks@.len(),
    ensures
        match r {
            Ok(node) => {
                &&& *old(pos) < *final(pos) <= toks@.len()
                &&& node_at(token_views(toks@).skip(*old(pos) as int)) == Ok::<
                    (SexpView, nat),
                    Reason,
                >((node@, (*final(pos) - *old(pos)) as nat))
            },
            Err(e) => node_at(token_views(toks@).skip(*old(pos) as int)) == Err::<
                (SexpView, nat),
                Reason,
            >(e@),
        },
    decreases toks@.len() - *old(pos),
{
    let start: usize = *pos;
    let ghost all = token_views(toks@);
    let ghost cur = all.skip(start as int);
    if start >= toks.len() {
        return Err("unexpected end of kirufile".to_owned());
    }
    assert(cur[0] == all[start as int]);
    match toks[start].0 {
        Token::LParen => {
            *pos = start + 1;
            let mut items: Vec<Sexp> = Vec::new();
            let ghost inner = nodes_at(cur.skip(1));
            proof {
                assert(cur.skip(1) =~= all.skip(start + 1));
                lemma_node_at_len(cur.skip(1));
                if let Ok((more, n)) = inner {
                    assert(sexp_views(items@) + more =~= more);
                }
            }
            while *pos < toks.len() && toks[*pos].0 != Token::RParen
                invariant
                    start < *pos <= toks@.len(),
                    start == *old(pos),
                    all == token_views(toks@),
                    inner == match nodes_at(all.skip(*pos as int)) {
                        Ok((more, n)) => Ok::<(Seq<SexpView>, nat), Reason>(
                            (sexp_views(items@) + more, (*pos - start - 1 + n) as nat),
                        ),
                        Err(e) => Err(e),
                    },
                    cur == all.skip(start as int),
                    cur[0].kind == Token::LParen,
                    inner == nodes_at(cur.skip(1)),
                    cur.len() > 0,
                decreases toks@.len() - *pos,
            {
                let at: usize = *pos;
                let ghost here = all.skip(at as int);
                assert(here[0] == all[at as int]);
                let ghost done = sexp_views(items@);
                match parse_sexp_tokens(toks, pos) {
                    Err(e) => {
                        return Err(e);
                    },
                    Ok(node) => {
                        items.push(node);
                        proof {
                            assert(here.skip(*pos - at) =~= all.skip(*pos as int));
                            assert(sexp_views(items@) =~= done.push(node@));
                            if let Ok((more, n)) = nodes_at(all.skip(*pos as int)) {
                                assert(done + (seq![node@] + more) =~= sexp_views(items@) + more);
                            }
                        }
                    },
                }
            }
            let at: usize = *pos;
            let ghost here = all.skip(at as int);
            if at >= toks.len() {
                return Err("unterminated list in kirufile".to_owned());
            }
            assert(here[0] == all[at as int]);
            *pos = at + 1;
            let node = Sexp::List(items);
            proof {
                assert(sexp_views(items@) + Seq::<SexpView>::empty() =~= sexp_views(items@));
                assert(node@ == SexpView::List(sexp_views(items@))) by {
                    assert(node@->List_0 =~= sexp_views(items@));
                }
            }
            Ok(node)
        },
        Token::RParen => Err("unexpected `)` in kirufile".to_owned()),
        Token::Sym => {
            *pos = start + 1;
            Ok(Sexp::Sym(toks[start].1.clone()))
        },
        Token::Str => {
            *pos = start + 1;
            Ok(Sexp::Str(toks[start].1.clone()))
        },
    }
}

// ── Access to nodes ──────────────────────────────────────────────────────────

/// The symbol that a node is, if it is one.
pub fn sym(node: &Sexp) -> (r: Option<&String>)
    ensures
        match r {
            Some(s) => node@ == SexpView::Sym(s@),
            None => !(node@ is Sym),
        },
{
    match node {
        Sexp::Sym(s) => Some(s),
        _ => None,
    }
}

/// The items of a list node, if it is one.
pub fn as_list(node: &Sexp) -> (r: Option<&Vec<Sexp>>)
    ensures
        match r {
            Some(items) => *node == Sexp::List(*items) && node@ == SexpView::List(
                sexp_views(items@),
            ),
            None => !(node@ is List),
        },
{
    match node {
        Sexp::List(items) => {
            assert(node@->List_0 =~= sexp_views(items@));
            Some(items)
        },
        _ => None,
    }
}

/// A node as the `Debug` format shows it.
pub open spec fn sexp_debug(node: SexpView) -> Seq<char>
    decreases node,
{
    match node {
        SexpView::Sym(s) => "Sym("@ + quoted(s) + ")"@,
        SexpView::Str(s) => "Str("@ + quoted(s) + ")"@,
        SexpView::List(items) => "List(["@ + sexps_debug(items) + "])"@,
    }
}

/// Nodes as the `Debug` format shows them in a list.
pub open spec fn sexps_debug(items: Seq<SexpView>) -> Seq<char>
    decreases items,
{
    if items.len() == 0 {
        Seq::empty()
    } else if items.len() == 1 {
        sexp_debug(items[0])
    } else {
        sexps_debug(items.drop_last()) + ", "@ + sexp_debug(items.last())
    }
}

/// The node at a position, or that there is none, as the `Debug` format shows it.
pub open spec fn found_debug(items: Seq<SexpView>, idx: int) -> Seq<char> {
    if 0 <= idx < items.len() {
        "Some("@ + sexp_debug(items[idx]) + ")"@
    } else {
        "None"@
    }
}

fn push_sexp_debug(buf: &mut String, node: &Sexp)
    ensures
        final(buf)@ == old(buf)@ + sexp_debug(node@),
    decreases node,
{
    let ghost start = buf@;
    match node {
        Sexp::Sym(s) => {
            buf.push_str("Sym(");
            buf.push_str(quote_string(s.as_str()).as_str());
            buf.push_str(")");
            assert(buf@ =~= start + sexp_debug(node@));
        },
        Sexp::Str(s) => {
            buf.push_str("Str(");
            buf.push_str(quote_string(s.as_str()).as_str());
            buf.push_str(")");
            assert(buf@ =~= start + sexp_debug(node@));
        },
        Sexp::List(items) => {
            buf.push_str("List([");
            let mut i: usize = 0;
            let ghost views = sexp_views(items@);
            let ghost open = buf@;
            assert(open + sexps_debug(views.take(0)) =~= open);
            while i < items.len()
                invariant
                    i <= items@.len(),
                    views == sexp_views(items@),
                    *node == Sexp::List(*items),
                    buf@ == open + sexps_debug(views.take(i as int)),
                decreases items@.len() - i,
            {
                let ghost done = buf@;
                if i > 0 {
                    buf.push_str(", ");
                }
                let ghost done2 = buf@;
                assert(decreases_to!(*node => node->List_0));
                assert(decreases_to!(items@ => items@[i as int]));
                push_sexp_debug(buf, &items[i]);
                proof {
                    let next = views.take(i + 1);
                    assert(next.drop_last() =~= views.take(i as int));
                    assert(next.last() == items@[i as int]@);
                    if i > 0 {
                        assert(buf@ =~= open + (sexps_debug(views.take(i as int)) + ", "@ + sexp_debug(items@[i as int]@)));
                    } else {
                        assert(views.take(0) =~= Seq::<SexpView>::empty());
                        assert(buf@ =~= open + sexp_debug(items@[i as int]@));
                    }
                }
                i += 1;
            }
            buf.push_str("])");
            proof {
                assert(views.take(i as int) =~= views);
                assert(node@->List_0 =~= views);
                assert(buf@ =~= start + sexp_debug(node@));
            }
        },
    }
}

fn push_found_debug(buf: &mut String, items: &Vec<Sexp>, idx: usize)
    ensures
        final(buf)@ == old(buf)@ + found_debug(sexp_views(items@), idx as int),
{
    let ghost start = buf@;
    if idx < items.len() {
        buf.push_str("Some(");
        push_sexp_debug(buf, &items[idx]);
        buf.push_str(")");
    } else {
        buf.push_str("None");
    }
    assert(buf@ =~= start + found_debug(sexp_views(items@), idx as int));
}

/// The text of an error that names what was found in place of something.
pub open spec fn found_reason(what: Seq<char>, items: Seq<SexpView>, idx: int) -> Reason {
    what + found_debug(items, idx)
}

/// An error that names the node found at a position.
pub fn found_error(what: &str, items: &Vec<Sexp>, idx: usize) -> (r: String)
    ensures
        r@ == found_reason(what@, sexp_views(items@), idx as int),
{
    let mut s = what.to_owned();
    push_found_debug(&mut s, items, idx);
    s
}

/// What `expect_sym` gives.
pub open spec fn expected_sym(items: Seq<SexpView>, idx: int, expected: Seq<char>) -> Result<(), Reason> {
    if 0 <= idx < items.len() && items[idx] == SexpView::Sym(expected) {
        Ok(())
    } else {
        Err(
            "expected `"@ + expected + "` at position "@ + decimal(idx as nat) + ", found "@
                + found_debug(items, idx),
        )
    }
}

/// Check that the node at a position is the symbol `expected`.
pub fn expect_sym(items: &Vec<Sexp>, idx: usize, expected: &str) -> (r: Result<(), String>)
    ensures
        expected_sym(sexp_views(items@), idx as int, expected@) == match r {
            Ok(_) => Ok::<(), Reason>(()),
            Err(e) => Err(e@),
        },
{
    if idx < items.len() {
        if let Sexp::Sym(s) = &items[idx] {
            if same(s.as_str(), expected) {
                return Ok(());
            }
        }
    }
    let mut e = "expected `".to_owned();
    e.push_str(expected);
    e.push_str("` at position ");
    e.push_str(decimal_text(idx as u64).as_str());
    e.push_str(", found ");
    push_found_debug(&mut e, items, idx);
    Err(e)
}

/// What `expect_str` gives.
pub open spec fn expected_str(items: Seq<SexpView>, idx: int, ctx: Seq<char>) -> Result<Seq<char>, Reason> {
    if 0 <= idx < items.len() && items[idx] is Str {
        Ok(items[idx]->Str_0)
    } else {
        Err("expected string for "@ + ctx + " , found "@ + found_debug(items, idx))
    }
}

/// The string at a position.
pub fn expect_str(items: &Vec<Sexp>, idx: usize, ctx: &str) -> (r: Result<String, String>)
    ensures
        expected_str(sexp_views(items@), idx as int, ctx@) == match r {
            Ok(s) => Ok::<Seq<char>, Reason>(s@),
            Err(e) => Err(e@),
        },
{
    if idx < items.len() {
        if let Sexp::Str(s) = &items[idx] {
            return Ok(s.clone());
        }
    }
    let mut e = "expected string for ".to_owned();
    e.push_str(ctx);
    e.push_str(" , found ");
    push_found_debug(&mut e, items, idx);
    Err(e)
}

/// What `expect_sym_arg` gives.
pub open spec fn expected_sym_arg(items: Seq<SexpView>, idx: int, ctx: Seq<char>) -> Result<Seq<char>, Reason> {
    if 0 <= idx < items.len() && items[idx] is Sym {
        Ok(items[idx]->Sym_0)
    } else {
        Err("expected identifier for "@ + ctx + ", found "@ + found_debug(items, idx))
    }
}

/// The symbol at a position.
pub fn expect_sym_arg(items: &Vec<Sexp>, idx: usize, ctx: &str) -> (r: Result<String, String>)
    ensures
        expected_sym_arg(sexp_views(items@), idx as int, ctx@) == match r {
            Ok(s) => Ok::<Seq<char>, Reason>(s@),
            Err(e) => Err(e@),
        },
{
    if idx < items.len() {
        if let Sexp::Sym(s) = &items[idx] {
            return Ok(s.clone());
        }
    }
    let mut e = "expected identifier for ".to_owned();
    e.push_str(ctx);
    e.push_str(", found ");
    push_found_debug(&mut e, items, idx);
    Err(e)
}

/// An item of a list node is smaller than the node.
pub proof fn lemma_child_decreases(node: &Sexp, items: &Vec<Sexp>, i: int)
    requires
        *node == Sexp::List(*items),
        0 <= i < items@.len(),
    ensures
        decreases_to!(*node => items@[i]),
{
    assert(decreases_to!(*node => node->List_0));
    assert(decreases_to!(items@ => items@[i]));
}

} // verus!
