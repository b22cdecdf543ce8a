//! Tokenizer and parser for the source language of the pipeline.
//!
//! The language is a small declaration grammar: `import "path";`,
//! `scalar Name extends Base;`, and `namespace Name { op name(): Type; }`.
//! Tokenizing and parsing are both total and deterministic: the executable
//! functions return exactly the value of their specification counterparts,
//! so identical input text always yields identical declarations.
//!
//! A source that does not fit the grammar parses with `ok == false`; the
//! caller turns that into a single syntax-error diagnostic.

use vstd::prelude::*;
use vstd::string::StrSliceExecFns;

use crate::text::str_eq;

verus! {

/// The shape of one token.  `Bad` marks a character no token starts with,
/// or an unterminated string literal.
#[derive(Clone, Copy, Debug, PartialEq, Eq, Structural)]
pub enum TokenKind {
    Ident,
    StrLit,
    LBrace,
    RBrace,
    LParen,
    RParen,
    Colon,
    Semi,
    Bad,
}

/// One token: its kind and the half-open character range it covers in the
/// source.  For a string literal the range covers the characters between
/// the quotes.
#[derive(Clone, Copy, Debug, PartialEq, Eq, Structural)]
pub struct Token {
    pub kind: TokenKind,
    pub start: usize,
    pub end: usize,
}

/// Whitespace separates tokens and is otherwise ignored.
pub open spec fn is_space(c: char) -> bool {
    c == ' ' || c == '\n' || c == '\t' || c == '\r'
}

/// Characters that may start an identifier: ASCII letters and underscore.
pub open spec fn is_ident_start(c: char) -> bool {
    (65 <= c as u32 && c as u32 <= 90) || (97 <= c as u32 && c as u32 <= 122) || c as u32 == 95
}

/// Characters that may continue an identifier: starters and ASCII digits.
pub open spec fn is_ident_char(c: char) -> bool {
    is_ident_start(c) || (48 <= c as u32 && c as u32 <= 57)
}

/// The number of identifier characters running from position `i`.
pub open spec fn scan_ident(s: Seq<char>, i: int) -> nat
    decreases s.len() - i,
{
    if i < 0 || i >= s.len() {
        0
    } else if is_ident_char(s[i]) {
        1 + scan_ident(s, i + 1)
    } else {
        0
    }
}

/// The number of characters from position `i` up to the closing quote of a
/// string literal (or to the end of the source if none follows).
pub open spec fn scan_str(s: Seq<char>, i: int) -> nat
    decreases s.len() - i,
{
    if i < 0 || i >= s.len() {
        0
    } else if s[i] == '"' {
        0
    } else {
        1 + scan_str(s, i + 1)
    }
}

/// The token range is inside the source.
pub open spec fn token_wf(s: Seq<char>, t: Token) -> bool {
    t.start <= t.end <= s.len()
}

/// Every token of the sequence is inside the source.
pub open spec fn tokens_wf(s: Seq<char>, toks: Seq<Token>) -> bool {
    forall|k: int| 0 <= k < toks.len() ==> token_wf(s, #[trigger] toks[k])
}

/// The characters a token covers.
pub open spec fn text_of(s: Seq<char>, t: Token) -> Seq<char> {
    s.subrange(t.start as int, t.end as int)
}

/// The token sequence of the source from position `i` on.
pub open spec fn spec_tokens_from(s: Seq<char>, i: int) -> Seq<Token>
    decreases s.len() - i,
{
    if i < 0 || i >= s.len() {
        Seq::empty()
    } else {
        let c = s[i];
        if is_space(c) {
            spec_tokens_from(s, i + 1)
        } else if is_ident_start(c) {
            let j = i + 1 + scan_ident(s, i + 1);
            let jc = if j <= s.len() { j } else { s.len() as int };
            seq![Token { kind: TokenKind::Ident, start: i as usize, end: jc as usize }]
                + spec_tokens_from(s, jc)
        } else if c == '"' {
            let q = i + 1 + scan_str(s, i + 1);
            let qc = if q <= s.len() { q } else { s.len() as int };
            if qc < s.len() {
                seq![Token { kind: TokenKind::StrLit, start: (i + 1) as usize, end: qc as usize }]
                    + spec_tokens_from(s, qc + 1)
            } else {
                seq![Token { kind: TokenKind::Bad, start: i as usize, end: s.len() as usize }]
            }
        } else if c == '{' {
            seq![Token { kind: TokenKind::LBrace, start: i as usize, end: (i + 1) as usize }]
                + spec_tokens_from(s, i + 1)
        } else if c == '}' {
            seq![Token { kind: TokenKind::RBrace, start: i as usize, end: (i + 1) as usize }]
                + spec_tokens_from(s, i + 1)
        } else if c == '(' {
            seq![Token { kind: TokenKind::LParen, start: i as usize, end: (i + 1) as usize }]
                + spec_tokens_from(s, i + 1)
        } else if c == ')' {
            seq![Token { kind: TokenKind::RParen, start: i as usize, end: (i + 1) as usize }]
                + spec_tokens_from(s, i + 1)
        } else if c == ':' {
            seq![Token { kind: TokenKind::Colon, start: i as usize, end: (i + 1) as usize }]
                + spec_tokens_from(s, i + 1)
        } else if c == ';' {
            seq![Token { kind: TokenKind::Semi, start: i as usize, end: (i + 1) as usize }]
                + spec_tokens_from(s, i + 1)
        } else {
            seq![Token { kind: TokenKind::Bad, start: i as usize, end: (i + 1) as usize }]
                + spec_tokens_from(s, i + 1)
        }
    }
}

fn space_char(c: char) -> (r: bool)
    ensures
        r == is_space(c),
{
    c == ' ' || c == '\n' || c == '\t' || c == '\r'
}

fn ident_start_char(c: char) -> (r: bool)
    ensures
        r == is_ident_start(c),
{
    let u = c as u32;
    (65 <= u && u <= 90) || (97 <= u && u <= 122) || u == 95
}

fn ident_char(c: char) -> (r: bool)
    ensures
        r == is_ident_char(c),
{
    let u = c as u32;
    ident_start_char(c) || (48 <= u && u <= 57)
}

/// Splits the source into its token sequence.
pub fn tokenize(src: &str) -> (toks: Vec<Token>)
    ensures
        toks@ == spec_tokens_from(src@, 0),
        tokens_wf(src@, toks@),
{
    let n = src.unicode_len();
    let mut toks: Vec<Token> = Vec::new();
    let mut i: usize = 0;
    while i < n
        invariant
            n == src@.len(),
            0 <= i <= n,
            spec_tokens_from(src@, 0) =~= toks@ + spec_tokens_from(src@, i as int),
            tokens_wf(src@, toks@),
        decreases n - i,
    {
        let c = src.get_char(i);
        if space_char(c) {
            i = i + 1;
        } else if ident_start_char(c) {
            let mut j = i + 1;
            while j < n && ident_char(src.get_char(j))
                invariant
                    n == src@.len(),
                    i + 1 <= j <= n,
                    scan_ident(src@, i as int + 1) == (j - i - 1) + scan_ident(src@, j as int),
                decreases n - j,
            {
                j = j + 1;
            }
            assert(scan_ident(src@, j as int) == 0);
            let t = Token { kind: TokenKind::Ident, start: i, end: j };
            proof {
                assert(spec_tokens_from(src@, i as int) =~= seq![t] + spec_tokens_from(
                    src@,
                    j as int,
                ));
                assert(toks@ + spec_tokens_from(src@, i as int) =~= toks@.push(t)
                    + spec_tokens_from(src@, j as int));
            }
            toks.push(t);
            i = j;
        } else if c == '"' {
            let mut j = i + 1;
            while j < n && src.get_char(j) != '"'
                invariant
                    n == src@.len(),
                    i + 1 <= j <= n,
                    scan_str(src@, i as int + 1) == (j - i - 1) + scan_str(src@, j as int),
                decreases n - j,
            {
                j = j + 1;
            }
            assert(scan_str(src@, j as int) == 0);
            if j < n {
                let t = Token { kind: TokenKind::StrLit, start: i + 1, end: j };
                proof {
                    assert(spec_tokens_from(src@, i as int) =~= seq![t] + spec_tokens_from(
                        src@,
                        j as int + 1,
                    ));
                    assert(toks@ + spec_tokens_from(src@, i as int) =~= toks@.push(t)
                        + spec_tokens_from(src@, j as int + 1));
                }
                toks.push(t);
                i = j + 1;
            } else {
                let t = Token { kind: TokenKind::Bad, start: i, end: n };
                proof {
                    assert(spec_tokens_from(src@, i as int) =~= seq![t]);
                    assert(toks@ + spec_tokens_from(src@, i as int) =~= toks@.push(t)
                        + spec_tokens_from(src@, n as int));
                }
                toks.push(t);
                i = n;
            }
        } else {
            let kind = if c == '{' {
                TokenKind::LBrace
            } else if c == '}' {
                TokenKind::RBrace
            } else if c == '(' {
                TokenKind::LParen
            } else if c == ')' {
                TokenKind::RParen
            } else if c == ':' {
                TokenKind::Colon
            } else if c == ';' {
                TokenKind::Semi
            } else {
                TokenKind::Bad
            };
            let t = Token { kind, start: i, end: i + 1 };
            proof {
                assert(spec_tokens_from(src@, i as int) =~= seq![t] + spec_tokens_from(
                    src@,
                    i as int + 1,
                ));
                assert(toks@ + spec_tokens_from(src@, i as int) =~= toks@.push(t)
                    + spec_tokens_from(src@, i as int + 1));
            }
            toks.push(t);
            i = i + 1;
        }
    }
    assert(spec_tokens_from(src@, n as int) =~= Seq::empty());
    assert(toks@ =~= spec_tokens_from(src@, 0));
    toks
}

/// The characters a token covers, as a slice of the source.
pub fn tok_text<'a>(src: &'a str, t: Token) -> (r: &'a str)
    requires
        token_wf(src@, t),
    ensures
        r@ == text_of(src@, t),
{
    src.substring_char(t.start, t.end)
}

/// One parsed declaration, flattened: an operation carries the name of the
/// namespace it was declared in.
#[derive(Clone, Debug, PartialEq, Eq)]
pub enum Item {
    Import { path: String },
    Scalar { name: String, base: String },
    Namespace { name: String },
    Op { namespace: String, name: String, ret: String },
}

pub ghost enum ItemV {
    Import { path: Seq<char> },
    Scalar { name: Seq<char>, base: Seq<char> },
    Namespace { name: Seq<char> },
    Op { namespace: Seq<char>, name: Seq<char>, ret: Seq<char> },
}

impl View for Item {
    type V = ItemV;

    open spec fn view(&self) -> ItemV {
        match self {
            Item::Import { path } => ItemV::Import { path: path@ },
            Item::Scalar { name, base } => ItemV::Scalar { name: name@, base: base@ },
            Item::Namespace { name } => ItemV::Namespace { name: name@ },
            Item::Op { namespace, name, ret } => ItemV::Op {
                namespace: namespace@,
                name: name@,
                ret: ret@,
            },
        }
    }
}

/// The models of a sequence of parsed declarations.
pub open spec fn item_views(items: Seq<Item>) -> Seq<ItemV> {
    items.map_values(|it: Item| it@)
}

/// What parsing a token stream yields: the declarations read before the
/// end of input or the first syntax error, and whether the whole stream
/// fit the grammar.
#[verifier::ext_equal]
pub ghost struct ParseOut {
    pub items: Seq<ItemV>,
    pub ok: bool,
}

/// The declarations of the token stream from position `p` on.  `ns` is the
/// namespace whose braces are open, if any; the grammar does not nest
/// namespaces.
pub open spec fn sp_items(
    src: Seq<char>,
    toks: Seq<Token>,
    p: int,
    ns: Option<Seq<char>>,
) -> ParseOut
    decreases toks.len() - p,
{
    if p < 0 || p >= toks.len() {
        ParseOut { items: Seq::empty(), ok: ns is None }
    } else {
        let t = toks[p];
        match ns {
            Some(n) => {
                if t.kind == TokenKind::RBrace {
                    sp_items(src, toks, p + 1, None)
                } else if t.kind == TokenKind::Ident && text_of(src, t) == "op"@ {
                    if p + 7 <= toks.len() && toks[p + 1].kind == TokenKind::Ident && toks[p
                        + 2].kind == TokenKind::LParen && toks[p + 3].kind == TokenKind::RParen
                        && toks[p + 4].kind == TokenKind::Colon && toks[p + 5].kind
                        == TokenKind::Ident && toks[p + 6].kind == TokenKind::Semi {
                        let rest = sp_items(src, toks, p + 7, Some(n));
                        ParseOut {
                            items: seq![
                                ItemV::Op {
                                    namespace: n,
                                    name: text_of(src, toks[p + 1]),
                                    ret: text_of(src, toks[p + 5]),
                                },
                            ] + rest.items,
                            ok: rest.ok,
                        }
                    } else {
                        ParseOut { items: Seq::empty(), ok: false }
                    }
                } else {
                    ParseOut { items: Seq::empty(), ok: false }
                }
            },
            None => {
                if t.kind == TokenKind::Ident && text_of(src, t) == "import"@ {
                    if p + 3 <= toks.len() && toks[p + 1].kind == TokenKind::StrLit && toks[p
                        + 2].kind == TokenKind::Semi {
                        let rest = sp_items(src, toks, p + 3, None);
                        ParseOut {
                            items: seq![ItemV::Import { path: text_of(src, toks[p + 1]) }]
                                + rest.items,
                            ok: rest.ok,
                        }
                    } else {
                        ParseOut { items: Seq::empty(), ok: false }
                    }
                } else if t.kind == TokenKind::Ident && text_of(src, t) == "scalar"@ {
                    if p + 5 <= toks.len() && toks[p + 1].kind == TokenKind::Ident && toks[p
                        + 2].kind == TokenKind::Ident && text_of(src, toks[p + 2]) == "extends"@
                        && toks[p + 3].kind == TokenKind::Ident && toks[p + 4].kind
                        == TokenKind::Semi {
                        let rest = sp_items(src, toks, p + 5, None);
                        ParseOut {
                            items: seq![
                                ItemV::Scalar {
                                    name: text_of(src, toks[p + 1]),
                                    base: text_of(src, toks[p + 3]),
                                },
                            ] + rest.items,
                            ok: rest.ok,
                        }
                    } else {
                        ParseOut { items: Seq::empty(), ok: false }
                    }
                } else if t.kind == TokenKind::Ident && text_of(src, t) == "namespace"@ {
                    if p + 3 <= toks.len() && toks[p + 1].kind == TokenKind::Ident && toks[p
                        + 2].kind == TokenKind::LBrace {
                        let rest = sp_items(src, toks, p + 3, Some(text_of(src, toks[p + 1])));
                        ParseOut {
                            items: seq![ItemV::Namespace { name: text_of(src, toks[p + 1]) }]
                                + rest.items,
                            ok: rest.ok,
                        }
                    } else {
                        ParseOut { items: Seq::empty(), ok: false }
                    }
                } else {
                    ParseOut { items: Seq::empty(), ok: false }
                }
            },
        }
    }
}

/// The namespace model of the executable parser state.
pub open spec fn ns_state(in_ns: bool, ns_name: &String) -> Option<Seq<char>> {
    if in_ns {
        Some(ns_name@)
    } else {
        None
    }
}

/// Parses the token stream of one source file.  Returns the declarations
/// read and whether the whole stream fit the grammar; the declarations are
/// only meaningful when it did.
pub fn parse(src: &str, toks: &Vec<Token>) -> (r: (Vec<Item>, bool))
    requires
        tokens_wf(src@, toks@),
    ensures
        r.1 == sp_items(src@, toks@, 0, None).ok,
        r.1 ==> item_views(r.0@) == sp_items(src@, toks@, 0, None).items,
{
    let mut items: Vec<Item> = Vec::new();
    let mut p: usize = 0;
    let mut in_ns: bool = false;
    let mut ns_name: String = String::new();
    loop
        invariant
            tokens_wf(src@, toks@),
            0 <= p <= toks@.len(),
            sp_items(src@, toks@, 0, None).ok == sp_items(
                src@,
                toks@,
                p as int,
                ns_state(in_ns, &ns_name),
            ).ok,
            sp_items(src@, toks@, 0, None).items =~= item_views(items@) + sp_items(
                src@,
                toks@,
                p as int,
                ns_state(in_ns, &ns_name),
            ).items,
        decreases toks@.len() - p,
    {
        let ghost ns0 = ns_state(in_ns, &ns_name);
        if p >= toks.len() {
            if in_ns {
                return (items, false);
            } else {
                assert(item_views(items@) + sp_items(src@, toks@, p as int, ns0).items
                    =~= item_views(items@));
                return (items, true);
            }
        }
        let t = toks[p];
        assert(token_wf(src@, toks@[p as int]));
        if in_ns {
            if t.kind == TokenKind::RBrace {
                in_ns = false;
                p = p + 1;
            } else if t.kind == TokenKind::Ident && str_eq(tok_text(src, t), "op") {
                if toks.len() - p >= 7 && toks[p + 1].kind == TokenKind::Ident && toks[p + 2].kind
                    == TokenKind::LParen && toks[p + 3].kind == TokenKind::RParen && toks[p
                    + 4].kind == TokenKind::Colon && toks[p + 5].kind == TokenKind::Ident && toks[p
                    + 6].kind == TokenKind::Semi {
                    assert(token_wf(src@, toks@[p as int + 1]));
                    assert(token_wf(src@, toks@[p as int + 5]));
                    let it = Item::Op {
                        namespace: ns_name.clone(),
                        name: String::from_str(tok_text(src, toks[p + 1])),
                        ret: String::from_str(tok_text(src, toks[p + 5])),
                    };
                    proof {
                        let rest = sp_items(src@, toks@, p as int + 7, ns0);
                        assert(sp_items(src@, toks@, p as int, ns0).items =~= seq![it@]
                            + rest.items);
                        assert(item_views(items@.push(it)) =~= item_views(items@).push(it@));
                        assert(item_views(items@) + (seq![it@] + rest.items) =~= item_views(
                            items@.push(it),
                        ) + rest.items);
                    }
                    items.push(it);
                    p = p + 7;
                } else {
                    return (items, false);
                }
            } else {
                return (items, false);
            }
        } else {
            if t.kind == TokenKind::Ident {
                let txt = tok_text(src, t);
                if str_eq(txt, "import") {
                    if toks.len() - p >= 3 && toks[p + 1].kind == TokenKind::StrLit && toks[p
                        + 2].kind == TokenKind::Semi {
                        assert(token_wf(src@, toks@[p as int + 1]));
                        let it = Item::Import {
                            path: String::from_str(tok_text(src, toks[p + 1])),
                        };
                        proof {
                            let rest = sp_items(src@, toks@, p as int + 3, ns0);
                            assert(sp_items(src@, toks@, p as int, ns0).items =~= seq![it@]
                                + rest.items);
                            assert(item_views(items@.push(it)) =~= item_views(items@).push(it@));
                            assert(item_views(items@) + (seq![it@] + rest.items) =~= item_views(
                                items@.push(it),
                            ) + rest.items);
                        }
                        items.push(it);
                        p = p + 3;
                    } else {
                        return (items, false);
                    }
                } else if str_eq(txt, "scalar") {
                    if toks.len() - p >= 5 && toks[p + 1].kind == TokenKind::Ident && toks[p
                        + 2].kind == TokenKind::Ident && str_eq(tok_text(src, toks[p + 2]),
                        "extends") && toks[p + 3].kind == TokenKind::Ident && toks[p + 4].kind
                        == TokenKind::Semi {
                        assert(token_wf(src@, toks@[p as int + 1]));
                        assert(token_wf(src@, toks@[p as int + 3]));
                        let it = Item::Scalar {
                            name: String::from_str(tok_text(src, toks[p + 1])),
                            base: String::from_str(tok_text(src, toks[p + 3])),
                        };
                        proof {
                            let rest = sp_items(src@, toks@, p as int + 5, ns0);
                            assert(sp_items(src@, toks@, p as int, ns0).items =~= seq![it@]
                                + rest.items);
                            assert(item_views(items@.push(it)) =~= item_views(items@).push(it@));
                            assert(item_views(items@) + (seq![it@] + rest.items) =~= item_views(
                                items@.push(it),
                            ) + rest.items);
                        }
                        items.push(it);
                        p = p + 5;
                    } else {
                        return (items, false);
                    }
                } else if str_eq(txt, "namespace") {
                    if toks.len() - p >= 3 && toks[p + 1].kind == TokenKind::Ident && toks[p
                        + 2].kind == TokenKind::LBrace {
                        assert(token_wf(src@, toks@[p as int + 1]));
                        let name = String::from_str(tok_text(src, toks[p + 1]));
                        let it = Item::Namespace { name: name.clone() };
                        proof {
                            let rest = sp_items(src@, toks@, p as int + 3, Some(name@));
                            assert(sp_items(src@, toks@, p as int, ns0).items =~= seq![it@]
                                + rest.items);
                            assert(item_views(items@.push(it)) =~= item_views(items@).push(it@));
                            assert(item_views(items@) + (seq![it@] + rest.items) =~= item_views(
                                items@.push(it),
                            ) + rest.items);
                        }
                        items.push(it);
                        in_ns = true;
                        ns_name = name;
                        p = p + 3;
                    } else {
                        return (items, false);
                    }
                } else {
                    return (items, false);
                }
            } else {
                return (items, false);
            }
        }
    }
}

} // verus!
