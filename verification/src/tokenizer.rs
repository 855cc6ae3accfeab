//! The forward-only XML tokenizer behind the token-streaming matcher.
//!
//! One call yields one lexical unit of the input: a start tag with its
//! attributes (a self-closing tag counts as one), some other construct
//! that extraction ignores (text, an end tag, a comment, a declaration),
//! the end of the input, or a malformed construct with the position at
//! which tokenizing stopped. Tokens are transient: each is consumed by
//! the matcher's step that pulled it and never retained.

use crate::text::{copy_range, find_char, find_from, lemma_find_from};
use vstd::prelude::*;

verus! {

/// XML whitespace.
pub open spec fn is_space(c: char) -> bool {
    c == ' ' || c == '\t' || c == '\n' || c == '\r'
}

/// A character that ends a tag or attribute name.
pub open spec fn is_name_delim(c: char) -> bool {
    is_space(c) || c == '=' || c == '>' || c == '/' || c == '"' || c == '\'' || c == '<'
}

/// The first index at or after `pos` holding something other than
/// whitespace, or the length of `t`.
pub open spec fn skip_ws_from(t: Seq<char>, pos: int) -> int
    decreases t.len() - pos,
        when 0 <= pos <= t.len()
{
    if pos >= t.len() {
        t.len() as int
    } else if is_space(t[pos]) {
        skip_ws_from(t, pos + 1)
    } else {
        pos
    }
}

/// `skip_ws_from` stays within bounds and stops on the first
/// non-whitespace character.
pub proof fn lemma_skip_ws(t: Seq<char>, pos: int)
    requires
        0 <= pos <= t.len(),
    ensures
        pos <= skip_ws_from(t, pos) <= t.len(),
        skip_ws_from(t, pos) < t.len() ==> !is_space(t[skip_ws_from(t, pos)]),
    decreases t.len() - pos,
{
    if pos < t.len() && is_space(t[pos]) {
        lemma_skip_ws(t, pos + 1);
    }
}

/// The first index at or after `pos` holding a name delimiter, or the
/// length of `t`.
pub open spec fn name_end_from(t: Seq<char>, pos: int) -> int
    decreases t.len() - pos,
        when 0 <= pos <= t.len()
{
    if pos >= t.len() {
        t.len() as int
    } else if is_name_delim(t[pos]) {
        pos
    } else {
        name_end_from(t, pos + 1)
    }
}

/// `name_end_from` stays within bounds and stops on the first delimiter.
pub proof fn lemma_name_end(t: Seq<char>, pos: int)
    requires
        0 <= pos <= t.len(),
    ensures
        pos <= name_end_from(t, pos) <= t.len(),
        name_end_from(t, pos) < t.len() ==> is_name_delim(t[name_end_from(t, pos)]),
    decreases t.len() - pos,
{
    if pos < t.len() && !is_name_delim(t[pos]) {
        lemma_name_end(t, pos + 1);
    }
}

/// One attribute of a start tag: its name, its raw (still escaped)
/// value, and the index in the input at which the value starts.
pub struct AttrModel {
    pub name: Seq<char>,
    pub value: Seq<char>,
    pub value_at: int,
}

/// What parsing the attribute list of a start tag yields.
pub enum AttrsOutcome {
    /// The list is malformed; tokenizing stopped at `pos`.
    Malformed { pos: int },
    /// The attributes up to the closing `>` or `/>`, and the index just
    /// past it.
    Parsed { attrs: Seq<AttrModel>, next: int },
}

/// What parsing attribute after attribute from `pos` on yields: a name,
/// `=`, and a quoted value each time, until the tag is closed by `>` or
/// `/>`.
pub open spec fn parse_attrs_from(t: Seq<char>, pos: int) -> AttrsOutcome
    decreases t.len() - pos,
        when 0 <= pos <= t.len()
{
    let p = skip_ws_from(t, pos);
    proof {
        lemma_skip_ws(t, pos);
    }
    if p >= t.len() {
        AttrsOutcome::Malformed { pos: p }
    } else if t[p] == '>' {
        AttrsOutcome::Parsed { attrs: Seq::empty(), next: p + 1 }
    } else if t[p] == '/' {
        if p + 1 < t.len() && t[p + 1] == '>' {
            AttrsOutcome::Parsed { attrs: Seq::empty(), next: p + 2 }
        } else {
            AttrsOutcome::Malformed { pos: p }
        }
    } else {
        let q = name_end_from(t, p);
        proof {
            lemma_name_end(t, p);
        }
        if q == p {
            AttrsOutcome::Malformed { pos: p }
        } else {
            let name = t.subrange(p, q);
            let r = skip_ws_from(t, q);
            proof {
                lemma_skip_ws(t, q);
            }
            if r >= t.len() || t[r] != '=' {
                AttrsOutcome::Malformed { pos: r }
            } else {
                let s = skip_ws_from(t, r + 1);
                proof {
                    lemma_skip_ws(t, r + 1);
                }
                if s >= t.len() || (t[s] != '"' && t[s] != '\'') {
                    AttrsOutcome::Malformed { pos: s }
                } else {
                    let e = find_from(t, s + 1, t[s]);
                    proof {
                        lemma_find_from(t, s + 1, t[s]);
                    }
                    if e >= t.len() {
                        AttrsOutcome::Malformed { pos: s }
                    } else {
                        let value = t.subrange(s + 1, e);
                        match parse_attrs_from(t, e + 1) {
                            AttrsOutcome::Malformed { pos: m } => AttrsOutcome::Malformed {
                                pos: m,
                            },
                            AttrsOutcome::Parsed { attrs, next } => AttrsOutcome::Parsed {
                                attrs: seq![AttrModel { name, value, value_at: s + 1 }] + attrs,
                                next,
                            },
                        }
                    }
                }
            }
        }
    }
}

/// A parsed attribute list lies past its start, within the input, and
/// each of its raw values lies within the input at its recorded index.
pub proof fn lemma_parse_attrs(t: Seq<char>, pos: int)
    requires
        0 <= pos <= t.len(),
    ensures
        match parse_attrs_from(t, pos) {
            AttrsOutcome::Malformed { pos: m } => 0 <= m <= t.len(),
            AttrsOutcome::Parsed { attrs, next } => pos < next <= t.len() && forall|k: int|
                0 <= k < attrs.len() ==> 0 <= #[trigger] attrs[k].value_at && attrs[k].value_at
                    + attrs[k].value.len() <= t.len(),
        },
    decreases t.len() - pos,
{
    let p = skip_ws_from(t, pos);
    lemma_skip_ws(t, pos);
    if p < t.len() && t[p] != '>' && !(t[p] == '/') {
        let q = name_end_from(t, p);
        lemma_name_end(t, p);
        if q != p {
            let r = skip_ws_from(t, q);
            lemma_skip_ws(t, q);
            if !(r >= t.len() || t[r] != '=') {
                let s = skip_ws_from(t, r + 1);
                lemma_skip_ws(t, r + 1);
                if !(s >= t.len() || (t[s] != '"' && t[s] != '\'')) {
                    let e = find_from(t, s + 1, t[s]);
                    lemma_find_from(t, s + 1, t[s]);
                    if e < t.len() {
                        lemma_parse_attrs(t, e + 1);
                    }
                }
            }
        }
    }
}

/// What the token that starts at `pos` is.
pub enum TokenOutcome {
    /// `pos` is the end of the input.
    EndOfInput,
    /// The token is malformed; tokenizing stopped at `pos`.
    Malformed { pos: int },
    /// A start tag (a self-closing tag counts as one): its name, its
    /// attributes, and the index just past it.
    StartTag { name: Seq<char>, attrs: Seq<AttrModel>, next: int },
    /// Any other construct, which extraction ignores: the index just
    /// past it.
    Skipped { next: int },
}

/// What tokenizing one step from `pos` yields.
pub open spec fn token_from(t: Seq<char>, pos: int) -> TokenOutcome {
    if pos >= t.len() {
        TokenOutcome::EndOfInput
    } else if t[pos] != '<' {
        TokenOutcome::Skipped { next: find_from(t, pos, '<') }
    } else if pos + 1 >= t.len() {
        TokenOutcome::Malformed { pos }
    } else if t[pos + 1] == '/' || t[pos + 1] == '!' || t[pos + 1] == '?' {
        let e = find_from(t, pos + 2, '>');
        if e >= t.len() {
            TokenOutcome::Malformed { pos }
        } else {
            TokenOutcome::Skipped { next: e + 1 }
        }
    } else {
        let q = name_end_from(t, pos + 1);
        if q == pos + 1 {
            TokenOutcome::Malformed { pos }
        } else {
            match parse_attrs_from(t, q) {
                AttrsOutcome::Malformed { pos: m } => TokenOutcome::Malformed { pos: m },
                AttrsOutcome::Parsed { attrs, next } => TokenOutcome::StartTag {
                    name: t.subrange(pos + 1, q),
                    attrs,
                    next,
                },
            }
        }
    }
}

/// Scans `t` from `pos` past any whitespace.
pub(crate) fn skip_ws(t: &Vec<char>, pos: usize) -> (r: usize)
    requires
        pos <= t@.len(),
    ensures
        r == skip_ws_from(t@, pos as int),
        pos <= r <= t@.len(),
{
    let mut i: usize = pos;
    while i < t.len()
        invariant
            pos <= i <= t@.len(),
            skip_ws_from(t@, pos as int) == skip_ws_from(t@, i as int),
        decreases t@.len() - i,
    {
        let c = t[i];
        if !(c == ' ' || c == '\t' || c == '\n' || c == '\r') {
            return i;
        }
        i = i + 1;
    }
    i
}

/// Scans `t` from `pos` to the end of a tag or attribute name.
fn name_end(t: &Vec<char>, pos: usize) -> (r: usize)
    requires
        pos <= t@.len(),
    ensures
        r == name_end_from(t@, pos as int),
        pos <= r <= t@.len(),
{
    let mut i: usize = pos;
    while i < t.len()
        invariant
            pos <= i <= t@.len(),
            name_end_from(t@, pos as int) == name_end_from(t@, i as int),
        decreases t@.len() - i,
    {
        let c = t[i];
        if c == ' ' || c == '\t' || c == '\n' || c == '\r' || c == '=' || c == '>' || c == '/' || c
            == '"' || c == '\'' || c == '<' {
            return i;
        }
        i = i + 1;
    }
    i
}

/// One attribute of a start tag, as the tokenizer hands it out: the raw
/// value still carries its escapes, and `value_at` is the index in the
/// input at which it starts.
pub struct Attr {
    pub name: Vec<char>,
    pub value: Vec<char>,
    pub value_at: usize,
}

impl View for Attr {
    type V = AttrModel;

    open spec fn view(&self) -> AttrModel {
        AttrModel { name: self.name@, value: self.value@, value_at: self.value_at as int }
    }
}

/// The attributes of a sequence of them, as their mathematical shadows.
pub open spec fn attrs_model(s: Seq<Attr>) -> Seq<AttrModel> {
    s.map_values(|a: Attr| a@)
}

/// Parses the attribute list of a start tag, from just past the tag
/// name to just past the closing `>` or `/>`. A failure carries the
/// position at which parsing stopped.
fn parse_attrs(t: &Vec<char>, pos: usize) -> (r: Result<(Vec<Attr>, usize), usize>)
    requires
        pos <= t@.len(),
    ensures
        match r {
            Ok((attrs, next)) => next <= t@.len() && parse_attrs_from(t@, pos as int)
                == (AttrsOutcome::Parsed { attrs: attrs_model(attrs@), next: next as int }),
            Err(p) => parse_attrs_from(t@, pos as int) == (AttrsOutcome::Malformed {
                pos: p as int,
            }),
        },
{
    let mut acc: Vec<Attr> = Vec::new();
    let mut cur: usize = pos;
    loop
        invariant
            pos <= cur <= t@.len(),
            parse_attrs_from(t@, pos as int) == match parse_attrs_from(t@, cur as int) {
                AttrsOutcome::Malformed { pos: m } => AttrsOutcome::Malformed { pos: m },
                AttrsOutcome::Parsed { attrs, next } => AttrsOutcome::Parsed {
                    attrs: attrs_model(acc@) + attrs,
                    next,
                },
            },
        decreases t@.len() - cur,
    {
        let ghost cur0 = cur as int;
        let p = skip_ws(t, cur);
        proof {
            lemma_skip_ws(t@, cur as int);
        }
        if p == t.len() {
            return Err(p);
        }
        let c = t[p];
        if c == '>' {
            proof {
                assert(parse_attrs_from(t@, cur0) == (AttrsOutcome::Parsed {
                    attrs: Seq::<AttrModel>::empty(),
                    next: p + 1,
                }));
                assert(attrs_model(acc@) + Seq::<AttrModel>::empty() =~= attrs_model(acc@));
            }
            return Ok((acc, p + 1));
        }
        if c == '/' {
            if p + 1 < t.len() && t[p + 1] == '>' {
                proof {
                    assert(attrs_model(acc@) + Seq::<AttrModel>::empty() =~= attrs_model(acc@));
                }
                return Ok((acc, p + 2));
            }
            return Err(p);
        }
        let q = name_end(t, p);
        proof {
            lemma_name_end(t@, p as int);
        }
        if q == p {
            return Err(p);
        }
        let r = skip_ws(t, q);
        if r == t.len() || t[r] != '=' {
            return Err(r);
        }
        let s = skip_ws(t, r + 1);
        if s == t.len() {
            return Err(s);
        }
        let quote = t[s];
        if quote != '"' && quote != '\'' {
            return Err(s);
        }
        let e = find_char(t, s + 1, quote);
        proof {
            lemma_find_from(t@, s + 1, quote);
        }
        if e == t.len() {
            return Err(s);
        }
        let name = copy_range(t, p, q);
        let value = copy_range(t, s + 1, e);
        let attr = Attr { name, value, value_at: s + 1 };
        let ghost acc0 = acc@;
        let ghost attr_m = attr@;
        acc.push(attr);
        cur = e + 1;
        proof {
            assert(acc@ =~= acc0.push(attr));
            assert(attrs_model(acc@) =~= attrs_model(acc0).push(attr_m));
            match parse_attrs_from(t@, cur as int) {
                AttrsOutcome::Malformed { pos: m } => {
                    assert(parse_attrs_from(t@, cur0) == (AttrsOutcome::Malformed { pos: m }));
                },
                AttrsOutcome::Parsed { attrs, next } => {
                    assert(parse_attrs_from(t@, cur0) == (AttrsOutcome::Parsed {
                        attrs: seq![attr_m] + attrs,
                        next,
                    }));
                    assert(attrs_model(acc0) + (seq![attr_m] + attrs) =~= attrs_model(acc@)
                        + attrs);
                },
            }
        }
    }
}

/// One token of the input, as the matcher consumes it.
pub enum Token {
    /// The input is exhausted.
    EndOfInput,
    /// A start tag (a self-closing tag counts as one) with its name and
    /// attributes.
    StartTag { name: Vec<char>, attrs: Vec<Attr> },
    /// Any other construct, which extraction ignores.
    Skipped,
}

/// Pulls the token that starts at `pos`, returning it with the index
/// just past it. A failure carries the position at which tokenizing
/// stopped.
pub fn next_token(t: &Vec<char>, pos: usize) -> (r: Result<(Token, usize), usize>)
    requires
        pos <= t@.len(),
    ensures
        match r {
            Ok((tok, next)) => next <= t@.len() && match tok {
                Token::EndOfInput => token_from(t@, pos as int) is EndOfInput && next == pos,
                Token::StartTag { name, attrs } => token_from(t@, pos as int)
                    == (TokenOutcome::StartTag {
                    name: name@,
                    attrs: attrs_model(attrs@),
                    next: next as int,
                }),
                Token::Skipped => token_from(t@, pos as int) == (TokenOutcome::Skipped {
                    next: next as int,
                }),
            },
            Err(p) => token_from(t@, pos as int) == (TokenOutcome::Malformed { pos: p as int }),
        },
{
    if pos == t.len() {
        return Ok((Token::EndOfInput, pos));
    }
    if t[pos] != '<' {
        let n = find_char(t, pos, '<');
        return Ok((Token::Skipped, n));
    }
    if pos + 1 == t.len() {
        return Err(pos);
    }
    let c = t[pos + 1];
    if c == '/' || c == '!' || c == '?' {
        let e = find_char(t, pos + 2, '>');
        if e == t.len() {
            return Err(pos);
        }
        return Ok((Token::Skipped, e + 1));
    }
    let q = name_end(t, pos + 1);
    if q == pos + 1 {
        return Err(pos);
    }
    match parse_attrs(t, q) {
        Err(m) => Err(m),
        Ok((attrs, next)) => {
            let name = copy_range(t, pos + 1, q);
            Ok((Token::StartTag { name, attrs }, next))
        },
    }
}

/// A token always moves forward: what follows it starts strictly past
/// `pos` and within the input, and a start tag's raw attribute values
/// lie within the input at their recorded indices.
pub proof fn lemma_token_from(t: Seq<char>, pos: int)
    requires
        0 <= pos <= t.len(),
    ensures
        match token_from(t, pos) {
            TokenOutcome::EndOfInput => pos == t.len(),
            TokenOutcome::Malformed { pos: m } => 0 <= m <= t.len(),
            TokenOutcome::StartTag { attrs, next, .. } => pos < next <= t.len() && forall|k: int|
                0 <= k < attrs.len() ==> 0 <= #[trigger] attrs[k].value_at && attrs[k].value_at
                    + attrs[k].value.len() <= t.len(),
            TokenOutcome::Skipped { next } => pos < next <= t.len(),
        },
{
    if pos < t.len() {
        if t[pos] != '<' {
            lemma_find_from(t, pos, '<');
        } else if pos + 1 < t.len() {
            if t[pos + 1] == '/' || t[pos + 1] == '!' || t[pos + 1] == '?' {
                lemma_find_from(t, pos + 2, '>');
            } else {
                let q = name_end_from(t, pos + 1);
                lemma_name_end(t, pos + 1);
                if q != pos + 1 {
                    lemma_parse_attrs(t, q);
                }
            }
        }
    }
}

} // verus!
