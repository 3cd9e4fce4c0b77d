//! The parser's state over the scanner's tokens, and the parse functions that read
//! ahead by counting brackets.
use vstd::prelude::*;
use crate::css_node_types::{
    BinaryExpression, BodyDeclaration, BodyDeclarationType, CssNodeType, Function, FunctionArgument, Identifier, Invocation,
    InvocationType, Property, ReferenceType, Term, UnicodeRange, UnknownAtRule,
};
use crate::css_nodes::{css_tree_append_id, css_tree_orphan, css_tree_replace, css_tree_value, orphan_id, CssNode, Level, Marker, ParseError, SourceLessCssNodeTree};
use crate::css_scanner::{Scanner, Token, TokenType};
use crate::scan_spec::{lemma_scan_defined, lemma_scan_eof, lemma_scan_progress, lemma_unicode_range_bounds, no_dangling_escape, spec_scan, unicode_range};
use crate::text::{blen, bp, cidx, is_hex, lemma_bp_full, lemma_bp_mono, lemma_cidx_some, lowercase};
use ego_tree::NodeId;

verus! {

/// A token as the parser sees it: its type, its text, and the bytes it spans.
pub struct TokV {
    pub tt: TokenType,
    pub text: Seq<char>,
    pub offset: int,
    pub length: int,
}

/// The view of a token.
pub open spec fn tv(t: Token) -> TokV {
    TokV { tt: t.token_type, text: t.text@, offset: t.offset as int, length: t.length as int }
}

/// Where the parser stands in the token stream: the current token, the one before it,
/// and the scanner's position.
pub struct ParseState {
    pub tok: TokV,
    pub prev: Option<TokV>,
    pub pos: int,
}

/// The state after taking the current token: the next token is scanned from the
/// position, and the current one becomes the previous one.
pub open spec fn consumed(s: Seq<char>, iw: bool, ic: bool, st: ParseState) -> ParseState {
    let o = spec_scan(s, iw, ic, st.pos)->0;
    ParseState {
        tok: TokV { tt: o.tt, text: o.text, offset: o.offset, length: o.end - o.offset },
        prev: Some(st.tok),
        pos: o.end,
    }
}

/// A state from which the token stream can be read on: the position is on a character
/// boundary of a text on which scanning always completes.
pub open spec fn readable(s: Seq<char>, st: ParseState) -> bool {
    &&& no_dangling_escape(s)
    &&& cidx(s, st.pos) is Some
    &&& 0 <= st.pos <= blen(s)
}

/// Taking a token keeps the state readable, and takes the position forward; past a
/// token other than the end of the text, strictly forward unless the end is reached.
pub proof fn lemma_consumed(s: Seq<char>, iw: bool, ic: bool, st: ParseState)
    requires
        readable(s, st),
    ensures
        spec_scan(s, iw, ic, st.pos) is Some,
        readable(s, consumed(s, iw, ic, st)),
        st.pos <= consumed(s, iw, ic, st).tok.offset,
        consumed(s, iw, ic, st).tok.offset + consumed(s, iw, ic, st).tok.length == consumed(
            s,
            iw,
            ic,
            st,
        ).pos,
        consumed(s, iw, ic, st).tok.tt is EOF <==> consumed(s, iw, ic, st).tok.length == 0,
        consumed(s, iw, ic, st).tok.tt is EOF ==> consumed(s, iw, ic, st).pos == blen(s),
        !(consumed(s, iw, ic, st).tok.tt is EOF) ==> st.pos < consumed(s, iw, ic, st).pos,
{
    lemma_scan_defined(s, iw, ic, st.pos);
    lemma_scan_progress(s, iw, ic, st.pos);
    lemma_scan_eof(s, iw, ic, st.pos);
    let e = spec_scan(s, iw, ic, st.pos)->0.end;
    lemma_cidx_some(s, e);
    lemma_bp_full(s);
    lemma_bp_mono(s, cidx(s, e)->0, s.len() as int);
}

/// How the reading of an unknown at-rule ends: at a `;` or its closing `}` with the
/// node left as it is, or finishing the node, with the error found, if any.
pub enum AtRuleEnd {
    Stop,
    Finish(Option<ParseError>),
}

/// The measure of how much of the token stream is left from `st`.
pub open spec fn left(s: Seq<char>, st: ParseState) -> int {
    blen(s) - st.pos + if st.tok.tt is EOF {
        0int
    } else {
        1int
    }
}

/// Reading the rest of an unknown at-rule from `st`, with `cl` curly brackets opened so
/// far and `cd`, `pd` and `bd` curly brackets, parentheses and square brackets still
/// open: tokens are taken until a `;` outside all brackets, the `}` that closes the
/// at-rule's first block, a closing bracket with no opening one, or the end of the text.
/// Gives how it ended and the state there.
pub open spec fn at_rule_run(
    s: Seq<char>,
    iw: bool,
    ic: bool,
    st: ParseState,
    cl: int,
    cd: int,
    pd: int,
    bd: int,
) -> (AtRuleEnd, ParseState)
    decreases left(s, st),
    when readable(s, st)
{
    let top = cd == 0 && pd == 0 && bd == 0;
    let nx = consumed(s, iw, ic, st);
    proof {
        lemma_consumed(s, iw, ic, st);
    }
    match st.tok.tt {
        TokenType::EOF => if cd > 0 {
            (AtRuleEnd::Finish(Some(ParseError::RightCurlyExpected)), st)
        } else if bd > 0 {
            (AtRuleEnd::Finish(Some(ParseError::RightSquareBracketExpected)), st)
        } else if pd > 0 {
            (AtRuleEnd::Finish(Some(ParseError::RightParenthesisExpected)), st)
        } else {
            (AtRuleEnd::Finish(None), st)
        },
        TokenType::SemiColon => if top {
            (AtRuleEnd::Stop, st)
        } else {
            at_rule_run(s, iw, ic, nx, cl, cd, pd, bd)
        },
        TokenType::CurlyL => at_rule_run(s, iw, ic, nx, cl + 1, cd + 1, pd, bd),
        TokenType::CurlyR => if cl > 0 && cd - 1 == 0 {
            if bd > 0 {
                (AtRuleEnd::Finish(Some(ParseError::RightSquareBracketExpected)), nx)
            } else if pd > 0 {
                (AtRuleEnd::Finish(Some(ParseError::RightParenthesisExpected)), nx)
            } else {
                (AtRuleEnd::Stop, nx)
            }
        } else if cd - 1 < 0 {
            if pd == 0 && bd == 0 {
                (AtRuleEnd::Stop, st)
            } else {
                (AtRuleEnd::Finish(Some(ParseError::LeftCurlyExpected)), st)
            }
        } else {
            at_rule_run(s, iw, ic, nx, cl, cd - 1, pd, bd)
        },
        TokenType::ParenthesisL => at_rule_run(s, iw, ic, nx, cl, cd, pd + 1, bd),
        TokenType::ParenthesisR => if pd - 1 < 0 {
            (AtRuleEnd::Finish(Some(ParseError::LeftParenthesisExpected)), st)
        } else {
            at_rule_run(s, iw, ic, nx, cl, cd, pd - 1, bd)
        },
        TokenType::BracketL => at_rule_run(s, iw, ic, nx, cl, cd, pd, bd + 1),
        TokenType::BracketR => if bd - 1 < 0 {
            (AtRuleEnd::Finish(Some(ParseError::LeftSquareBracketExpected)), st)
        } else {
            at_rule_run(s, iw, ic, nx, cl, cd, pd, bd - 1)
        },
        _ => at_rule_run(s, iw, ic, nx, cl, cd, pd, bd),
    }
}

/// Reading a custom property's value from `st`, with `cd`, `pd` and `bd` curly
/// brackets, parentheses and square brackets open: tokens are taken until a `;` or `!`
/// outside all brackets, a bad string, a closing bracket with no opening one (which
/// ends the value without error when it is one of `stop` and no other bracket is open)
/// or the end of the text. Gives the error found, if any, and the state there.
pub open spec fn prop_value_run(
    s: Seq<char>,
    iw: bool,
    ic: bool,
    st: ParseState,
    stop: Seq<TokenType>,
    cd: int,
    pd: int,
    bd: int,
) -> (Option<ParseError>, ParseState)
    decreases left(s, st),
    when readable(s, st)
{
    let top = cd == 0 && pd == 0 && bd == 0;
    let on_stop = stop.contains(st.tok.tt);
    let nx = consumed(s, iw, ic, st);
    proof {
        lemma_consumed(s, iw, ic, st);
    }
    match st.tok.tt {
        TokenType::SemiColon | TokenType::Exclamation => if top {
            (None, st)
        } else {
            prop_value_run(s, iw, ic, nx, stop, cd, pd, bd)
        },
        TokenType::CurlyL => prop_value_run(s, iw, ic, nx, stop, cd + 1, pd, bd),
        TokenType::CurlyR => if cd - 1 < 0 {
            if on_stop && pd == 0 && bd == 0 {
                (None, st)
            } else {
                (Some(ParseError::LeftCurlyExpected), st)
            }
        } else {
            prop_value_run(s, iw, ic, nx, stop, cd - 1, pd, bd)
        },
        TokenType::ParenthesisL => prop_value_run(s, iw, ic, nx, stop, cd, pd + 1, bd),
        TokenType::ParenthesisR => if pd - 1 < 0 {
            if on_stop && bd == 0 && cd == 0 {
                (None, st)
            } else {
                (Some(ParseError::LeftParenthesisExpected), st)
            }
        } else {
            prop_value_run(s, iw, ic, nx, stop, cd, pd - 1, bd)
        },
        TokenType::BracketL => prop_value_run(s, iw, ic, nx, stop, cd, pd, bd + 1),
        TokenType::BracketR => if bd - 1 < 0 {
            (Some(ParseError::LeftSquareBracketExpected), st)
        } else {
            prop_value_run(s, iw, ic, nx, stop, cd, pd, bd - 1)
        },
        TokenType::BadString => (None, st),
        TokenType::EOF => if bd > 0 {
            (Some(ParseError::RightSquareBracketExpected), st)
        } else if pd > 0 {
            (Some(ParseError::RightParenthesisExpected), st)
        } else {
            (Some(ParseError::RightCurlyExpected), st)
        },
        _ => prop_value_run(s, iw, ic, nx, stop, cd, pd, bd),
    }
}

/// What parsing a custom property's value made of `p`, giving `q` and the node `n`:
/// `n` starts at the current token, tokens are read as `prop_value_run` says, and `n` is
/// finished there: it reaches the end of the last token taken, and the error found, if
/// any, is reported at the token reached unless the last error was reported there.
pub open spec fn prop_value_parsed(p: Parser, q: Parser, stop: Seq<TokenType>, n: NodeId) -> bool {
    let s = p.src();
    let run = prop_value_run(s, p.scanner.ignore_whitespace, p.scanner.ignore_comments, p.state(), stop, 0, 0, 0);
    let t0 = p.state().tok;
    let m = p.tree.nodes();
    let m2 = q.tree.nodes();
    let nv = m2[n].2;
    let reported = run.0 is Some && p.last_error() != Some(run.1.tok);
    &&& q.scanner.keeps(p.scanner)
    &&& q.state() == run.1
    &&& q.root() == p.root()
    &&& q.tree.root_id() == p.tree.root_id()
    &&& !m.contains_key(n)
    &&& m2.dom() == m.dom().insert(n)
    &&& forall|k: NodeId| #[trigger] m.contains_key(k) ==> m2[k] == m[k]
    &&& m2[n].0 is None
    &&& m2[n].1.len() == 0
    &&& nv.offset == t0.offset
    &&& nv.node_type == CssNodeType::CustomPropertyValue
    &&& nv.length == finished_length(t0.offset, t0.length, run.1.prev)
    &&& reported ==> {
        &&& nv.issues@.len() == 1
        &&& marker_at(nv.issues@[0], run.0->0, run.1.tok)
        &&& q.last_error() == Some(run.1.tok)
    }
    &&& !reported ==> nv.issues@.len() == 0 && q.last_error() == p.last_error()
}

/// The state after skipping the current token: the next token is scanned from the
/// position, and the previous token stays.
pub open spec fn skipped(s: Seq<char>, iw: bool, ic: bool, st: ParseState) -> ParseState {
    ParseState { prev: st.prev, ..consumed(s, iw, ic, st) }
}

/// Whether `types`, when given, holds `t`.
pub open spec fn in_types(types: Option<Seq<TokenType>>, t: TokenType) -> bool {
    types matches Some(ts) && ts.contains(t)
}

/// Skipping tokens from `st` up to one of `resync` (which is then taken: `true`), one of
/// `stop` (which is not: `true`) or the end of the text (`false`).
pub open spec fn resync_run(
    s: Seq<char>,
    iw: bool,
    ic: bool,
    st: ParseState,
    resync: Option<Seq<TokenType>>,
    stop: Option<Seq<TokenType>>,
) -> (bool, ParseState)
    decreases left(s, st),
    when readable(s, st)
{
    proof {
        lemma_consumed(s, iw, ic, st);
    }
    if in_types(resync, st.tok.tt) {
        (true, consumed(s, iw, ic, st))
    } else if in_types(stop, st.tok.tt) {
        (true, st)
    } else if st.tok.tt is EOF {
        (false, st)
    } else {
        resync_run(s, iw, ic, skipped(s, iw, ic, st), resync, stop)
    }
}

/// A saved parser state: the previous, current and last erroneous tokens and the
/// scanner position.
pub struct Mark {
    prev: Option<Token>,
    curr: Token,
    pos: usize,
    last_err: Option<Token>,
}

impl Mark {
    /// The parser state saved.
    pub closed spec fn state(&self) -> ParseState {
        ParseState {
            tok: tv(self.curr),
            prev: match self.prev {
                Some(t) => Some(tv(t)),
                None => None,
            },
            pos: self.pos as int,
        }
    }

    /// The last erroneous token saved.
    pub closed spec fn last_error(&self) -> Option<TokV> {
        match self.last_err {
            Some(t) => Some(tv(t)),
            None => None,
        }
    }
}

/// What parsing a node of one token made of `p`, giving `q` and the node `n` of type
/// `node_type`: the current token is taken, and `n`, with no parent, spans exactly it.
pub open spec fn token_node_parsed(p: Parser, q: Parser, n: NodeId, node_type: CssNodeType) -> bool {
    let t0 = p.state().tok;
    let m = p.tree.nodes();
    let m2 = q.tree.nodes();
    &&& q.scanner.keeps(p.scanner)
    &&& q.state() == consumed(p.src(), p.scanner.ignore_whitespace, p.scanner.ignore_comments, p.state())
    &&& q.root() == p.root()
    &&& q.last_error() == p.last_error()
    &&& q.tree.root_id() == p.tree.root_id()
    &&& !m.contains_key(n)
    &&& m2 == m.insert(n, m2[n])
    &&& m2[n].0 is None
    &&& m2[n].1.len() == 0
    &&& m2[n].2.offset == t0.offset
    &&& m2[n].2.length == t0.length
    &&& m2[n].2.issues@.len() == 0
    &&& m2[n].2.node_type == node_type
}

/// The token is the delimiter made of the one character `c`.
pub open spec fn is_delim(t: TokV, c: char) -> bool {
    t.tt == TokenType::Delim && t.text == seq![c]
}

/// The operators of binary expressions (and `=`).
pub open spec fn is_operator_token(t: TokV) -> bool {
    ||| is_delim(t, '/') || is_delim(t, '*') || is_delim(t, '+') || is_delim(t, '-')
    ||| t.tt == TokenType::Dashmatch || t.tt == TokenType::Includes
    ||| t.tt == TokenType::SubstringOperator || t.tt == TokenType::PrefixOperator
    ||| t.tt == TokenType::SuffixOperator || is_delim(t, '=')
}

/// The token types of numbers, with or without a unit.
pub open spec fn is_numeric_type(tt: TokenType) -> bool {
    ||| tt == TokenType::Num || tt == TokenType::Percentage || tt == TokenType::Resolution
    ||| tt == TokenType::Length || tt == TokenType::EMS || tt == TokenType::EXS
    ||| tt == TokenType::Angle || tt == TokenType::Time || tt == TokenType::Dimension
    ||| tt == TokenType::ContainerQueryLength || tt == TokenType::Freq
}

/// The token is an identifier of as many bytes as `text` that reads `text` once
/// lower-cased.
pub open spec fn is_ident_text(t: TokV, text: Seq<char>) -> bool {
    t.tt == TokenType::Ident && blen(t.text) == blen(text) && lowercase(t.text) == text
}

/// The identifier names a custom property: it starts with `--`.
pub open spec fn starts_with_dashes(text: Seq<char>) -> bool {
    text.len() >= 2 && text[0] == '-' && text[1] == '-'
}

/// What parsing a property name made of `p`, giving `q` and the result `r`. A node `n`
/// for the property is made at the current token in any case. An optional `*` or `_`
/// (an old browser hack) is taken first; text between it and what follows undoes
/// everything but `n`, and the result is `None`. Then an identifier must follow: it
/// becomes `n`'s only child `c`, and `n` reaches its end; without one the result is
/// `None` and `n` stays as made.
pub open spec fn property_parsed(p: Parser, q: Parser, r: Option<NodeId>) -> bool {
    &&& q.scanner.keeps(p.scanner)
    &&& q.root() == p.root()
    &&& q.last_error() == p.last_error()
    &&& q.tree.root_id() == p.tree.root_id()
    &&& exists|n: NodeId| #[trigger] property_node(p, q, r, n)
}

/// `property_parsed` for the property node `n`.
pub open spec fn property_node(p: Parser, q: Parser, r: Option<NodeId>, n: NodeId) -> bool {
    let s = p.src();
    let iw = p.scanner.ignore_whitespace;
    let ic = p.scanner.ignore_comments;
    let t0 = p.state().tok;
    let hack = is_delim(t0, '*') || is_delim(t0, '_');
    let st1 = if hack {
        consumed(s, iw, ic, p.state())
    } else {
        p.state()
    };
    let spaced = hack && t0.offset + t0.length != st1.tok.offset;
    let m = p.tree.nodes();
    let m2 = q.tree.nodes();
    {
        &&& !m.contains_key(n)
        &&& m2[n].0 is None
        &&& m2[n].2.offset == t0.offset
        &&& m2[n].2.issues@.len() == 0
        &&& if !spaced && st1.tok.tt == TokenType::Ident {
            let c = m2[n].1[0];
            &&& r == Some(n)
            &&& q.state() == consumed(s, iw, ic, st1)
            &&& !m.contains_key(c) && c != n
            &&& m2.dom() == m.dom().insert(n).insert(c)
            &&& forall|k: NodeId| #[trigger] m.contains_key(k) ==> m2[k] == m[k]
            &&& m2[n].1 == seq![c]
            &&& m2[n].2.node_type == CssNodeType::Property(Property { identifier: c })
            &&& m2[n].2.length == finished_length(t0.offset, t0.length, Some(st1.tok))
            &&& m2[c].0 == Some(n)
            &&& m2[c].1.len() == 0
            &&& m2[c].2.offset == st1.tok.offset
            &&& m2[c].2.length == st1.tok.length
            &&& m2[c].2.issues@.len() == 0
            &&& m2[c].2.node_type matches CssNodeType::Identifier(i)
            &&& i.is_custom_property == starts_with_dashes(st1.tok.text)
            &&& i.reference_types is None
        } else {
            &&& r is None
            &&& q.state() == if spaced {
                p.state()
            } else {
                st1
            }
            &&& m2 == m.insert(n, m2[n])
            &&& m2[n].1.len() == 0
            &&& m2[n].2.length == t0.length
            &&& m2[n].2.node_type == CssNodeType::Property(Property { identifier: p.root() })
        }
    }
}

/// The state after reading a unicode range from the position: the range (`+` and hex
/// digits) is skipped, and the token after it taken, the current one becoming the
/// previous one.
pub open spec fn after_unicode_range(s: Seq<char>, iw: bool, ic: bool, st: ParseState) -> ParseState {
    consumed(s, iw, ic, ParseState { pos: bp(s, unicode_range(s, cidx(s, st.pos)->0)->0), ..st })
}

/// What reading the name of a selector part made of `p`, giving `q`, the part's node
/// `n` (made by the caller, with no children yet) standing in `p`'s tree: the name is an
/// identifier touching the token before it, which becomes `n`'s only child `c`, and `n`
/// reaches its end; without one, `identifier expected` is reported at the current
/// token (unless the last error was reported there) and `n` reaches the end of the
/// token before.
pub open spec fn part_named(p: Parser, q: Parser, n: NodeId) -> bool {
    let s = p.src();
    let st1 = p.state();
    let t0 = st1.prev->0;
    let named = t0.offset + t0.length == st1.tok.offset && st1.tok.tt == TokenType::Ident;
    let m = p.tree.nodes();
    let m2 = q.tree.nodes();
    let nv = m[n].2;
    let reported = p.last_error() != Some(st1.tok);
    &&& q.scanner.keeps(p.scanner)
    &&& q.root() == p.root()
    &&& q.tree.root_id() == p.tree.root_id()
    &&& m2[n].0 == m[n].0
    &&& m2[n].2.offset == nv.offset
    &&& m2[n].2.node_type == nv.node_type
    &&& if named {
        let c = m2[n].1[0];
        &&& q.state() == consumed(s, p.scanner.ignore_whitespace, p.scanner.ignore_comments, st1)
        &&& q.last_error() == p.last_error()
        &&& !m.contains_key(c) && c != n
        &&& m2.dom() == m.dom().insert(c)
        &&& forall|k: NodeId| #[trigger] m.contains_key(k) && k != n ==> m2[k] == m[k]
        &&& m2[n].1 == seq![c]
        &&& m2[n].2.length == finished_length(nv.offset as int, nv.length as int, Some(st1.tok))
        &&& m2[n].2.issues == nv.issues
        &&& m2[c].0 == Some(n)
        &&& m2[c].1.len() == 0
        &&& m2[c].2.offset == st1.tok.offset
        &&& m2[c].2.length == st1.tok.length
        &&& m2[c].2.issues@.len() == 0
        &&& m2[c].2.node_type matches CssNodeType::Identifier(i)
        &&& i.is_custom_property == starts_with_dashes(st1.tok.text)
        &&& i.reference_types is None
    } else {
        &&& q.state() == st1
        &&& m2 == m.insert(n, m2[n])
        &&& m2[n].1 == m[n].1
        &&& m2[n].2.length == finished_length(nv.offset as int, nv.length as int, Some(t0))
        &&& reported ==> m2[n].2.issues@ == nv.issues@.push(m2[n].2.issues@.last()) && marker_at(
            m2[n].2.issues@.last(),
            ParseError::IdentifierExpected,
            st1.tok,
        ) && q.last_error() == Some(st1.tok)
        &&& !reported ==> m2[n].2.issues == nv.issues && q.last_error() == p.last_error()
    }
}

/// A selector part of type `node_type` read from `p`, giving `q` and the node `n`: its
/// `.` or `#` is taken into `n` as `token_node_parsed` says, and then its name is read
/// as `part_named` says.
pub open spec fn named_part_parsed(p: Parser, q: Parser, n: NodeId, node_type: CssNodeType) -> bool {
    exists|mid: Parser| {
        &&& #[trigger] token_node_parsed(p, mid, n, node_type)
        &&& mid.wf()
        &&& part_named(mid, q, n)
    }
}

/// The `n` characters of `t` from `i` on are hex digits.
pub open spec fn hex_run_at(t: Seq<char>, i: int, n: int) -> bool {
    0 <= i && i + n <= t.len() && forall|k: int| i <= k < i + n ==> is_hex(#[trigger] t[k])
}

/// The text of a hash token that counts as a color: `#` and three hex digits at its
/// start, or four hex digits in a row anywhere in it.
pub open spec fn hex_color_text(t: Seq<char>) -> bool {
    (t.len() >= 1 && t[0] == '#' && hex_run_at(t, 1, 3)) || exists|i: int| #[trigger] hex_run_at(t, i, 4)
}

/// A reported problem as a value: its error, level, message, offset and length.
pub open spec fn marker_v(m: Marker) -> (ParseError, Level, Seq<char>, int, int) {
    (m.error, m.level, m.message@, m.offset as int, m.length as int)
}

/// A node type as a value: which variant it is, the nodes it refers to, the reference
/// types of an identifier, and a flag (an identifier naming a custom property, an
/// invocation of a function).
pub struct TypeV {
    pub kind: nat,
    pub ids: Seq<Option<NodeId>>,
    pub refs: Option<Seq<ReferenceType>>,
    pub flag: bool,
}

/// The value of a node type.
pub open spec fn type_v(t: CssNodeType) -> TypeV {
    let k = t.kind_index();
    match t {
        CssNodeType::Term(x) => TypeV { kind: k, ids: seq![x.operator, Some(x.expression)], refs: None, flag: false },
        CssNodeType::BinaryExpression(x) => TypeV {
            kind: k,
            ids: seq![Some(x.left), Some(x.right), Some(x.operator)],
            refs: None,
            flag: false,
        },
        CssNodeType::_Invocation(x) => TypeV {
            kind: k,
            ids: seq![
                Some(x.arguments),
                match x.invocation_type {
                    InvocationType::Function(f) => Some(f.identifier),
                    InvocationType::Invocation => None,
                },
            ],
            refs: None,
            flag: x.invocation_type is Function,
        },
        CssNodeType::FunctionArgument(x) => TypeV { kind: k, ids: seq![x.identifier, Some(x.value)], refs: None, flag: false },
        CssNodeType::Identifier(x) => TypeV {
            kind: k,
            ids: Seq::empty(),
            refs: match x.reference_types {
                Some(v) => Some(v@),
                None => None,
            },
            flag: x.is_custom_property,
        },
        CssNodeType::Property(x) => TypeV { kind: k, ids: seq![Some(x.identifier)], refs: None, flag: false },
        CssNodeType::UnicodeRange(x) => TypeV {
            kind: k,
            ids: seq![Some(x.range_start), Some(x.range_end)],
            refs: None,
            flag: false,
        },
        _ => TypeV { kind: k, ids: Seq::empty(), refs: None, flag: false },
    }
}

/// A node as a value.
pub struct NodeV {
    pub offset: int,
    pub length: int,
    pub issues: Seq<(ParseError, Level, Seq<char>, int, int)>,
    pub ty: TypeV,
}

/// The value of a node.
pub open spec fn node_v(n: CssNode) -> NodeV {
    NodeV {
        offset: n.offset as int,
        length: n.length as int,
        issues: n.issues@.map_values(|m: Marker| marker_v(m)),
        ty: type_v(n.node_type),
    }
}

/// The shape of a tree with its nodes as values.
pub open spec fn tree_v(m: Map<NodeId, (Option<NodeId>, Seq<NodeId>, CssNode)>) -> Map<
    NodeId,
    (Option<NodeId>, Seq<NodeId>, NodeV),
> {
    m.map_values(|x: (Option<NodeId>, Seq<NodeId>, CssNode)| (x.0, x.1, node_v(x.2)))
}

/// Giving a node of a tree a new entry gives its value the value of that entry.
pub proof fn lemma_tree_v_insert(
    m: Map<NodeId, (Option<NodeId>, Seq<NodeId>, CssNode)>,
    k: NodeId,
    e: (Option<NodeId>, Seq<NodeId>, CssNode),
)
    ensures
        tree_v(m.insert(k, e)) == tree_v(m).insert(k, (e.0, e.1, node_v(e.2))),
{
    assert(tree_v(m.insert(k, e)) =~= tree_v(m).insert(k, (e.0, e.1, node_v(e.2))));
}

/// Everything the parser holds, as values: where it stands, its tree, and the token the
/// last error was reported at.
pub struct PS {
    pub st: ParseState,
    pub m: Map<NodeId, (Option<NodeId>, Seq<NodeId>, NodeV)>,
    pub le: Option<TokV>,
}

/// What stays while parsing: the text, the scanner's settings and the tree's root.
pub struct Ctx {
    pub s: Seq<char>,
    pub iw: bool,
    pub ic: bool,
    pub root: NodeId,
}

/// A new node spanning the current token of `st`, of type `ty`, with no issues.
pub open spec fn new_node_v(st: ParseState, ty: TypeV) -> NodeV {
    NodeV { offset: st.tok.offset, length: st.tok.length, issues: Seq::empty(), ty }
}

/// Adding a node spanning the current token, of type `ty`, with no parent.
pub open spec fn sp_orphan(ps: PS, ty: TypeV) -> (NodeId, PS) {
    let id = orphan_id(ps.m.dom());
    (id, PS { m: ps.m.insert(id, (None, Seq::empty(), new_node_v(ps.st, ty))), ..ps })
}

/// Taking the current token.
pub open spec fn sp_consume(c: Ctx, ps: PS) -> PS {
    PS { st: consumed(c.s, c.iw, c.ic, ps.st), ..ps }
}

/// Taking the current token when it has type `tt`.
pub open spec fn sp_accept(c: Ctx, ps: PS, tt: TokenType) -> (bool, PS) {
    if ps.st.tok.tt == tt {
        (true, sp_consume(c, ps))
    } else {
        (false, ps)
    }
}

/// Making `child` the last child of `parent`, when the tree has `parent`.
pub open spec fn sp_append(ps: PS, parent: NodeId, child: NodeId) -> PS {
    if ps.m.contains_key(parent) {
        PS {
            m: ps.m.insert(child, (Some(parent), ps.m[child].1, ps.m[child].2)).insert(
                parent,
                (ps.m[parent].0, ps.m[parent].1.push(child), ps.m[parent].2),
            ),
            ..ps
        }
    } else {
        ps
    }
}

/// Appending `child`, when there is one.
pub open spec fn sp_append_maybe(ps: PS, parent: NodeId, child: Option<NodeId>) -> PS {
    match child {
        Some(c) => sp_append(ps, parent, c),
        None => ps,
    }
}

/// Giving the node `n` the type `ty`.
pub open spec fn sp_set_ty(ps: PS, n: NodeId, ty: TypeV) -> PS {
    PS { m: ps.m.insert(n, (ps.m[n].0, ps.m[n].1, NodeV { ty, ..ps.m[n].2 })), ..ps }
}

/// Reporting `e` on `n` at the current token, unless the last error was reported there.
pub open spec fn sp_mark_error(ps: PS, n: NodeId, e: ParseError) -> PS {
    if ps.le == Some(ps.st.tok) {
        ps
    } else {
        PS {
            m: ps.m.insert(
                n,
                (
                    ps.m[n].0,
                    ps.m[n].1,
                    NodeV {
                        issues: ps.m[n].2.issues.push(
                            (e, Level::Error, Seq::empty(), ps.st.tok.offset, ps.st.tok.length),
                        ),
                        ..ps.m[n].2
                    },
                ),
            ),
            le: Some(ps.st.tok),
            ..ps
        }
    }
}

/// Making `n` reach the end of the previous token.
pub open spec fn sp_finish_length(ps: PS, n: NodeId) -> PS {
    PS {
        m: ps.m.insert(
            n,
            (
                ps.m[n].0,
                ps.m[n].1,
                NodeV { length: finished_length(ps.m[n].2.offset, ps.m[n].2.length, ps.st.prev), ..ps.m[n].2 },
            ),
        ),
        ..ps
    }
}

/// Finishing `n`, with the error `err` reported when there is one (a list of nodes is
/// left as it is).
pub open spec fn sp_finish(ps: PS, n: NodeId, err: Option<ParseError>) -> PS {
    if ps.m[n].2.ty.kind == CssNodeType::Nodelist.kind_index() {
        ps
    } else {
        let p1 = match err {
            Some(e) => sp_mark_error(ps, n, e),
            None => ps,
        };
        sp_finish_length(p1, n)
    }
}

/// A node spanning the current token, of type `ty`, after which the token is taken.
pub open spec fn sp_token_node(c: Ctx, ps: PS, ty: TypeV) -> (NodeId, PS) {
    let (n, p1) = sp_orphan(ps, ty);
    (n, sp_finish_length(sp_consume(c, p1), n))
}

/// A node of one token of type `ty`, when `cond` holds of the current token.
pub open spec fn sp_if_token(c: Ctx, ps: PS, cond: bool, ty: TypeV) -> (Option<NodeId>, PS) {
    if cond {
        let (n, p) = sp_token_node(c, ps, ty);
        (Some(n), p)
    } else {
        (None, ps)
    }
}

/// The value of an identifier's type.
pub open spec fn ident_ty(refs: Option<Seq<ReferenceType>>, custom: bool) -> TypeV {
    TypeV {
        kind: CssNodeType::Identifier(Identifier { reference_types: None, is_custom_property: false }).kind_index(),
        ids: Seq::empty(),
        refs,
        flag: custom,
    }
}

/// The reference types of a slice, when given.
pub open spec fn opt_refs(r: Option<&[ReferenceType]>) -> Option<Seq<ReferenceType>> {
    match r {
        Some(x) => Some(x@),
        None => None,
    }
}

/// An identifier, when the current token is one.
pub open spec fn sp_ident(c: Ctx, ps: PS, refs: Option<Seq<ReferenceType>>) -> (Option<NodeId>, PS) {
    sp_if_token(c, ps, ps.st.tok.tt == TokenType::Ident, ident_ty(refs, starts_with_dashes(ps.st.tok.text)))
}

/// An operator of a binary expression, when the current token is one.
pub open spec fn sp_operator(c: Ctx, ps: PS) -> (Option<NodeId>, PS) {
    sp_if_token(c, ps, is_operator_token(ps.st.tok), type_v(CssNodeType::Operator))
}

/// A unary `+` or `-`, when the current token is one.
pub open spec fn sp_unary_operator(c: Ctx, ps: PS) -> (Option<NodeId>, PS) {
    sp_if_token(
        c,
        ps,
        is_delim(ps.st.tok, '+') || is_delim(ps.st.tok, '-'),
        type_v(CssNodeType::Undefined),
    )
}

/// A number, when the current token is one.
pub open spec fn sp_numeric(c: Ctx, ps: PS) -> (Option<NodeId>, PS) {
    sp_if_token(c, ps, is_numeric_type(ps.st.tok.tt), type_v(CssNodeType::NumericValue))
}

/// A string, when the current token is one.
pub open spec fn sp_string_literal(c: Ctx, ps: PS) -> (Option<NodeId>, PS) {
    sp_if_token(
        c,
        ps,
        ps.st.tok.tt == TokenType::String || ps.st.tok.tt == TokenType::BadString,
        type_v(CssNodeType::StringLiteral),
    )
}

/// A hex color, when the current token is a hash that counts as one.
pub open spec fn sp_hex_color(c: Ctx, ps: PS) -> (Option<NodeId>, PS) {
    sp_if_token(
        c,
        ps,
        ps.st.tok.tt == TokenType::Hash && hex_color_text(ps.st.tok.text),
        type_v(CssNodeType::HexColorValue),
    )
}

/// What a parse from `p` to `q` giving `r` keeps: the state stays readable, no node is
/// removed and the parser does not go back; a node given back is new, has no parent,
/// and comes after at least one token was taken.
pub open spec fn kept(c: Ctx, p: PS, q: PS, r: Option<NodeId>) -> bool {
    &&& readable(c.s, q.st)
    &&& p.m.dom().subset_of(q.m.dom())
    &&& left(c.s, q.st) <= left(c.s, p.st)
    &&& (r matches Some(n) ==> !p.m.contains_key(n) && q.m.contains_key(n) && q.m[n].0 is None && left(c.s, q.st)
        < left(c.s, p.st))
}

/// A parse from `p` to `q` keeps to the same text, settings and root, leaves the parser
/// well formed and not behind where it was, and leaves every node that was there as it
/// was.
pub open spec fn grew(p: Parser, q: Parser) -> bool {
    &&& q.wf()
    &&& q.ctx() == p.ctx()
    &&& left(q.src(), q.state()) <= left(p.src(), p.state())
    &&& same_on(p.tree.nodes(), q.tree.nodes())
}

/// Every node of `a` is in `b`, as it is in `a`.
pub open spec fn same_on(
    a: Map<NodeId, (Option<NodeId>, Seq<NodeId>, CssNode)>,
    b: Map<NodeId, (Option<NodeId>, Seq<NodeId>, CssNode)>,
) -> bool {
    forall|k: NodeId| #[trigger] a.contains_key(k) ==> b.contains_key(k) && b[k] == a[k]
}

/// Keeping the nodes of `a` from `a` to `b` and from `b` to `c` keeps them from `a` to `c`.
pub proof fn lemma_same_on_trans(
    a: Map<NodeId, (Option<NodeId>, Seq<NodeId>, CssNode)>,
    b: Map<NodeId, (Option<NodeId>, Seq<NodeId>, CssNode)>,
    c: Map<NodeId, (Option<NodeId>, Seq<NodeId>, CssNode)>,
)
    requires
        same_on(a, b),
        same_on(b, c),
    ensures
        same_on(a, c),
{
}

/// Changing a node that is not in `a` keeps the nodes of `a`.
pub proof fn lemma_same_on_insert(
    a: Map<NodeId, (Option<NodeId>, Seq<NodeId>, CssNode)>,
    b: Map<NodeId, (Option<NodeId>, Seq<NodeId>, CssNode)>,
    x: NodeId,
    v: (Option<NodeId>, Seq<NodeId>, CssNode),
)
    requires
        same_on(a, b),
        !a.contains_key(x),
    ensures
        same_on(a, b.insert(x, v)),
{
}

/// A node given back by a parse from `p` to `q` is new and has no parent.
pub open spec fn gave(p: Parser, q: Parser, r: Option<NodeId>) -> bool {
    r matches Some(n) ==> !p.tree.nodes().contains_key(n) && q.tree.nodes().contains_key(n) && q.tree.nodes()[n].0 is None
}

/// At least one token was taken from `p` to `q`.
pub open spec fn moved(p: Parser, q: Parser) -> bool {
    left(q.src(), q.state()) < left(p.src(), p.state())
}

/// Taking the current token when it is the delimiter `text`.
pub open spec fn sp_accept_delim(c: Ctx, ps: PS, text: Seq<char>) -> (bool, PS) {
    if ps.st.tok.tt == TokenType::Delim && ps.st.tok.text == text {
        (true, sp_consume(c, ps))
    } else {
        (false, ps)
    }
}

/// Identifiers taken one after another from `ps`, each becoming the last child of `n`.
pub open spec fn sp_ident_children(c: Ctx, ps: PS, n: NodeId) -> PS
    decreases left(c.s, ps.st),
{
    let (id, p1) = sp_ident(c, ps, None);
    match id {
        None => p1,
        Some(id) => {
            let p2 = sp_append(p1, n, id);
            if readable(c.s, p2.st) && left(c.s, p2.st) < left(c.s, ps.st) {
                sp_ident_children(c, p2, n)
            } else {
                p2
            }
        },
    }
}

/// A named grid line: `[`, identifiers as children, then `]`, whose absence is reported.
pub open spec fn sp_named_line(c: Ctx, ps: PS) -> (Option<NodeId>, PS) {
    if ps.st.tok.tt != TokenType::BracketL {
        (None, ps)
    } else {
        let (n, p1) = sp_orphan(ps, type_v(CssNodeType::GridLine));
        let p2 = sp_ident_children(c, sp_consume(c, p1), n);
        let (closed, p3) = sp_accept(c, p2, TokenType::BracketR);
        (
            Some(n),
            sp_finish(
                p3,
                n,
                if closed {
                    None
                } else {
                    Some(ParseError::RightSquareBracketExpected)
                },
            ),
        )
    }
}

/// A unicode range after the identifier `u`: the node is made once the `u` is seen, and
/// given back, reaching the end of the token after the range, only when a range follows.
pub open spec fn sp_unicode_range(c: Ctx, ps: PS) -> (Option<NodeId>, PS) {
    if !is_ident_text(ps.st.tok, seq!['u']) {
        (None, ps)
    } else {
        let (n, p1) = sp_orphan(
            ps,
            type_v(CssNodeType::UnicodeRange(UnicodeRange { range_start: c.root, range_end: c.root })),
        );
        if unicode_range(c.s, cidx(c.s, p1.st.pos)->0) is Some {
            (Some(n), sp_finish_length(PS { st: after_unicode_range(c.s, c.iw, c.ic, p1.st), ..p1 }, n))
        } else {
            (None, p1)
        }
    }
}

/// A recursive-descent parser over the tokens of one text, building a tree of nodes.
pub struct Parser {
    pub scanner: Scanner,
    pub token: Token,
    pub prev_token: Option<Token>,
    pub last_error_token: Option<Token>,
    pub tree: SourceLessCssNodeTree,
    pub root: NodeId,
}

/// The marker a node gets for `error` at the token `t`.
pub open spec fn marker_at(m: Marker, error: ParseError, t: TokV) -> bool {
    &&& m.error == error
    &&& m.level == Level::Error
    &&& m.message@.len() == 0
    &&& m.offset == t.offset
    &&& m.length == t.length
}


/// A parser just made for `text`: well formed, skipping whitespace and comments, at the
/// first token of the text with no token before it and no error reported, and with a
/// tree of one root node spanning the whole text.
pub open spec fn started(p: Parser, text: Seq<char>) -> bool {
    &&& p.wf()
    &&& p.src() == text
    &&& p.scanner.ignore_comments && p.scanner.ignore_whitespace && !p.scanner.in_url
    &&& p.state().prev is None
    &&& p.last_error() is None
    &&& tv(p.token) == consumed(text, true, true, ParseState { tok: tv(p.token), prev: None, pos: 0 }).tok
    &&& p.state().pos == consumed(text, true, true, ParseState { tok: tv(p.token), prev: None, pos: 0 }).pos
    &&& p.tree.nodes().dom() == set![p.root()]
    &&& p.tree.nodes()[p.root()].2.offset == 0
    &&& p.tree.nodes()[p.root()].2.length == blen(text)
    &&& p.tree.nodes()[p.root()].2.node_type == CssNodeType::ROOT
}

impl Parser {
    /// The text being parsed.
    pub open spec fn src(&self) -> Seq<char> {
        self.scanner.src()
    }

    /// Where the parser stands.
    pub open spec fn state(&self) -> ParseState {
        ParseState {
            tok: tv(self.token),
            prev: match self.prev_token {
                Some(t) => Some(tv(t)),
                None => None,
            },
            pos: self.scanner.pos(),
        }
    }

    /// Everything the parser holds, as values.
    pub open spec fn ps(&self) -> PS {
        PS { st: self.state(), m: tree_v(self.tree.nodes()), le: self.last_error() }
    }

    /// What stays while parsing.
    pub open spec fn ctx(&self) -> Ctx {
        Ctx {
            s: self.src(),
            iw: self.scanner.ignore_whitespace,
            ic: self.scanner.ignore_comments,
            root: self.root(),
        }
    }

    /// The token an error was last reported at, if any.
    pub open spec fn last_error(&self) -> Option<TokV> {
        match self.last_error_token {
            Some(t) => Some(tv(t)),
            None => None,
        }
    }

    /// The root of the tree the parsed nodes go under.
    pub open spec fn root(&self) -> NodeId {
        self.root
    }

    /// A token that ends within the text.
    pub open spec fn tok_fits(&self, t: TokV) -> bool {
        0 <= t.offset && 0 <= t.length && t.offset + t.length <= blen(self.src())
    }

    /// The scanner reads its text from a character boundary, scanning always completes,
    /// the tokens lie within the text, and the tree is well-formed and holds the root.
    pub open spec fn wf(&self) -> bool {
        &&& self.scanner.ready()
        &&& self.scanner.at_index()
        &&& readable(self.src(), self.state())
        &&& self.tok_fits(self.state().tok)
        &&& (self.state().tok.tt is EOF <==> self.state().tok.length == 0)
        &&& (self.state().prev matches Some(p) ==> self.tok_fits(p))
        &&& self.tree.nodes().contains_key(self.root())
    }

    /// Adds `value` in a new node with no parent and no children.
    fn tree_orphan(&mut self, value: CssNode) -> (r: NodeId)
        ensures
            !old(self).tree.nodes().contains_key(r),
            r == orphan_id(old(self).tree.nodes().dom()),
            final(self).tree.root_id() == old(self).tree.root_id(),
            final(self).tree.nodes() == old(self).tree.nodes().insert(
                r,
                (None::<NodeId>, Seq::<NodeId>::empty(), value),
            ),
            final(self).scanner == old(self).scanner,
            final(self).token == old(self).token,
            final(self).prev_token == old(self).prev_token,
            final(self).last_error_token == old(self).last_error_token,
            final(self).root == old(self).root,
    {
        css_tree_orphan(&mut self.tree.0, value)
    }

    /// Makes the node `child`, which has no parent, the last child of `parent`, when the
    /// tree has `parent`.
    fn tree_append(&mut self, parent: NodeId, child: NodeId) -> (r: bool)
        requires
            old(self).tree.nodes().contains_key(child),
            old(self).tree.nodes()[child].0 is None,
            child != parent,
        ensures
            r == old(self).tree.nodes().contains_key(parent),
            final(self).tree.root_id() == old(self).tree.root_id(),
            !r ==> final(self).tree.nodes() == old(self).tree.nodes(),
            r ==> final(self).tree.nodes() == old(self).tree.nodes().insert(
                child,
                (Some(parent), old(self).tree.nodes()[child].1, old(self).tree.nodes()[child].2),
            ).insert(
                parent,
                (
                    old(self).tree.nodes()[parent].0,
                    old(self).tree.nodes()[parent].1.push(child),
                    old(self).tree.nodes()[parent].2,
                ),
            ),
            final(self).scanner == old(self).scanner,
            final(self).token == old(self).token,
            final(self).prev_token == old(self).prev_token,
            final(self).last_error_token == old(self).last_error_token,
            final(self).root == old(self).root,
    {
        css_tree_append_id(&mut self.tree.0, parent, child)
    }

    /// Puts `value` in the node `id` and gives back the value it held.
    fn tree_put(&mut self, id: NodeId, value: CssNode) -> (r: CssNode)
        requires
            old(self).tree.nodes().contains_key(id),
        ensures
            r == old(self).tree.nodes()[id].2,
            final(self).tree.root_id() == old(self).tree.root_id(),
            final(self).tree.nodes() == old(self).tree.nodes().insert(
                id,
                (old(self).tree.nodes()[id].0, old(self).tree.nodes()[id].1, value),
            ),
            final(self).scanner == old(self).scanner,
            final(self).token == old(self).token,
            final(self).prev_token == old(self).prev_token,
            final(self).last_error_token == old(self).last_error_token,
            final(self).root == old(self).root,
    {
        css_tree_replace(&mut self.tree.0, id, value)
    }

    /// Takes the value out of the node `id`, leaving an empty undefined node there.
    fn tree_take(&mut self, id: NodeId) -> (r: CssNode)
        requires
            old(self).tree.nodes().contains_key(id),
        ensures
            r == old(self).tree.nodes()[id].2,
            final(self).tree.root_id() == old(self).tree.root_id(),
            final(self).tree.nodes() == old(self).tree.nodes().insert(
                id,
                (old(self).tree.nodes()[id].0, old(self).tree.nodes()[id].1, final(self).tree.nodes()[id].2),
            ),
            final(self).scanner == old(self).scanner,
            final(self).token == old(self).token,
            final(self).prev_token == old(self).prev_token,
            final(self).last_error_token == old(self).last_error_token,
            final(self).root == old(self).root,
    {
        self.tree_put(id, CssNode::new(0, 0, CssNodeType::Undefined))
    }

    /// A parser at the first token of `text`, with a tree of one root node spanning the
    /// text; `None` when the text ends with a backslash, which no scan can complete.
    pub fn new_with_text(text: String) -> (r: Option<Self>)
        ensures
            r is Some <==> no_dangling_escape(text@),
            r matches Some(p) ==> started(p, text@),
    {
        let length = crate::text::str_len(text.as_str());
        let mut scanner = Scanner::new(String::new(), true, true, false);
        scanner.set_source(text);
        if !scanner.scan_defined() {
            return None;
        }
        let tree = SourceLessCssNodeTree::new(CssNode::new(0, length, CssNodeType::ROOT));
        let root = tree.root();
        proof {
            lemma_bp_full(scanner.src());
            crate::text::lemma_bp_zero(scanner.src());
            crate::text::lemma_cidx_bp(scanner.src(), 0);
            let st0 = ParseState {
                tok: TokV { tt: TokenType::EOF, text: Seq::empty(), offset: 0, length: 0 },
                prev: None,
                pos: 0,
            };
            lemma_consumed(scanner.src(), true, true, st0);
        }
        let token = scanner.scan();
        let p = Parser { scanner, token, prev_token: None, last_error_token: None, tree, root };
        proof {
            assert(p.tree.nodes().dom() =~= set![p.root()]);
        }
        Some(p)
    }

    /// Takes the current token and scans the next one.
    pub fn consume_token(&mut self)
        requires
            old(self).wf(),
        ensures
            final(self).wf(),
            final(self).state() == consumed(old(self).src(), old(self).scanner.ignore_whitespace, old(self).scanner.ignore_comments, old(self).state()),
            final(self).scanner.keeps(old(self).scanner),
            final(self).tree == old(self).tree,
            final(self).last_error() == old(self).last_error(),
            final(self).root() == old(self).root(),
            final(self).ps() == sp_consume(old(self).ctx(), old(self).ps()),
            final(self).ctx() == old(self).ctx(),
            left(final(self).src(), final(self).state()) <= left(old(self).src(), old(self).state()),
            !(old(self).state().tok.tt is EOF) ==> left(final(self).src(), final(self).state()) < left(
                old(self).src(),
                old(self).state(),
            ),
    {
        proof {
            lemma_consumed(self.src(), self.scanner.ignore_whitespace, self.scanner.ignore_comments, self.state());
        }
        let mut t = self.scanner.scan();
        std::mem::swap(&mut t, &mut self.token);
        self.prev_token = Some(t);
    }

    /// Whether the current token has type `token_type`.
    pub fn peek(&self, token_type: TokenType) -> (r: bool)
        ensures
            r == (self.token.token_type == token_type),
    {
        token_type_eq(&self.token.token_type, &token_type)
    }

    /// Takes the current token when it has type `token_type`.
    pub fn accept(&mut self, token_type: TokenType) -> (r: bool)
        requires
            old(self).wf(),
        ensures
            final(self).wf(),
            r == (old(self).token.token_type == token_type),
            r ==> final(self).state() == consumed(old(self).src(), old(self).scanner.ignore_whitespace, old(self).scanner.ignore_comments, old(self).state()),
            !r ==> *final(self) == *old(self),
            final(self).scanner.keeps(old(self).scanner),
            final(self).tree == old(self).tree,
            final(self).last_error() == old(self).last_error(),
            final(self).root() == old(self).root(),
            (r, final(self).ps()) == sp_accept(old(self).ctx(), old(self).ps(), token_type),
            final(self).ctx() == old(self).ctx(),
            left(final(self).src(), final(self).state()) <= left(old(self).src(), old(self).state()),
            r && !(old(self).state().tok.tt is EOF) ==> left(final(self).src(), final(self).state()) < left(
                old(self).src(),
                old(self).state(),
            ),
    {
        if self.peek(token_type) {
            self.consume_token();
            true
        } else {
            false
        }
    }

    /// A node with the given type spanning the current token, not yet in the tree.
    pub fn create_node(&self, node_type: CssNodeType) -> (r: CssNode)
        ensures
            r.offset == self.token.offset,
            r.length == self.token.length,
            r.issues@.len() == 0,
            r.node_type == node_type,
    {
        CssNode::new(self.token.offset, self.token.length, node_type)
    }

    /// Adds a node with the given type spanning the current token, with no parent.
    pub fn orphan(&mut self, node_type: CssNodeType) -> (r: NodeId)
        requires
            old(self).wf(),
        ensures
            final(self).wf(),
            !old(self).tree.nodes().contains_key(r),
            final(self).tree.root_id() == old(self).tree.root_id(),
            final(self).tree.nodes().dom() == old(self).tree.nodes().dom().insert(r),
            final(self).tree.nodes() == old(self).tree.nodes().insert(r, final(self).tree.nodes()[r]),
            final(self).tree.nodes()[r].0 is None,
            final(self).tree.nodes()[r].1.len() == 0,
            final(self).tree.nodes()[r].2.offset == old(self).token.offset,
            final(self).tree.nodes()[r].2.length == old(self).token.length,
            final(self).tree.nodes()[r].2.issues@.len() == 0,
            final(self).tree.nodes()[r].2.node_type == node_type,
            final(self).state() == old(self).state(),
            final(self).scanner == old(self).scanner,
            final(self).last_error() == old(self).last_error(),
            final(self).root() == old(self).root(),
            (r, final(self).ps()) == sp_orphan(old(self).ps(), type_v(node_type)),
            final(self).ctx() == old(self).ctx(),
    {
        let v = self.create_node(node_type);
        let ghost m0 = self.tree.nodes();
        let r = self.tree_orphan(v);
        proof {
            assert(tree_v(m0).dom() =~= m0.dom());
            lemma_tree_v_insert(m0, r, (None::<NodeId>, Seq::<NodeId>::empty(), v));
            assert(node_v(v).issues =~= Seq::empty());
            assert(node_v(v) == new_node_v(old(self).state(), type_v(node_type)));
            assert(self.tree.nodes().dom() =~= old(self).tree.nodes().dom().insert(r));
        }
        r
    }

    /// Reports `error` on the node `node_id` at the current token, unless the last error
    /// was reported at this very token.
    pub fn mark_error(&mut self, node_id: NodeId, error: ParseError)
        requires
            old(self).wf(),
            old(self).tree.nodes().contains_key(node_id),
        ensures
            final(self).wf(),
            final(self).state() == old(self).state(),
            final(self).scanner == old(self).scanner,
            final(self).root() == old(self).root(),
            final(self).tree.root_id() == old(self).tree.root_id(),
            old(self).last_error() == Some(old(self).state().tok) ==> final(self).tree.nodes()
                == old(self).tree.nodes() && final(self).last_error() == old(self).last_error(),
            old(self).last_error() != Some(old(self).state().tok) ==> {
                &&& final(self).last_error() == Some(old(self).state().tok)
                &&& final(self).tree.nodes() == old(self).tree.nodes().insert(
                    node_id,
                    (
                        old(self).tree.nodes()[node_id].0,
                        old(self).tree.nodes()[node_id].1,
                        final(self).tree.nodes()[node_id].2,
                    ),
                )
                &&& final(self).tree.nodes()[node_id].2.offset == old(self).tree.nodes()[node_id].2.offset
                &&& final(self).tree.nodes()[node_id].2.length == old(self).tree.nodes()[node_id].2.length
                &&& final(self).tree.nodes()[node_id].2.node_type == old(self).tree.nodes()[node_id].2.node_type
                &&& final(self).tree.nodes()[node_id].2.issues@.len() == old(self).tree.nodes()[node_id].2.issues@.len() + 1
                &&& final(self).tree.nodes()[node_id].2.issues@.drop_last() == old(self).tree.nodes()[node_id].2.issues@
                &&& marker_at(final(self).tree.nodes()[node_id].2.issues@.last(), error, old(self).state().tok)
            },
            final(self).ps() == sp_mark_error(old(self).ps(), node_id, error),
            final(self).ctx() == old(self).ctx(),
    {
        let same = match &self.last_error_token {
            Some(t) => same_token(t, &self.token),
            None => false,
        };
        if !same {
            let mut v = self.tree_take(node_id);
            let marker = Marker {
                error,
                level: Level::Error,
                message: String::new(),
                offset: self.token.offset,
                length: self.token.length,
            };
            v.add_issue(marker);
            proof {
                assert(v.issues@.drop_last() =~= old(self).tree.nodes()[node_id].2.issues@);
            }
            let ghost m1 = self.tree.nodes();
            self.tree_put(node_id, v);
            self.last_error_token = Some(copy_token(&self.token));
            proof {
                let m0 = old(self).tree.nodes();
                let e = (m0[node_id].0, m0[node_id].1, v);
                assert(self.tree.nodes() =~= m0.insert(node_id, e));
                lemma_tree_v_insert(m0, node_id, e);
                let ov = node_v(m0[node_id].2);
                assert(marker_v(marker) == (error, Level::Error, Seq::<char>::empty(), old(self).state().tok.offset, old(self).state().tok.length));
                assert(node_v(v).issues =~= ov.issues.push(marker_v(marker)));
                assert(node_v(v) == NodeV { issues: ov.issues.push(marker_v(marker)), ..ov });
            }
        } else {
            proof {
                assert(self.tree.nodes() =~= old(self).tree.nodes());
            }
        }
    }

    /// The name of an unknown at-rule: an undefined node spanning the current token,
    /// which is taken, and the node finished, when it is an at-keyword.
    pub fn parse_unknown_at_rule_name(&mut self) -> (r: Option<NodeId>)
        requires
            old(self).wf(),
        ensures
            final(self).wf(),
            r matches Some(c) && {
                &&& !old(self).tree.nodes().contains_key(c)
                &&& final(self).tree.nodes().dom() == old(self).tree.nodes().dom().insert(c)
                &&& final(self).tree.nodes() == old(self).tree.nodes().insert(c, final(self).tree.nodes()[c])
                &&& final(self).tree.nodes()[c].0 is None
                &&& final(self).tree.nodes()[c].1.len() == 0
                &&& final(self).tree.nodes()[c].2.offset == old(self).token.offset
                &&& final(self).tree.nodes()[c].2.length == old(self).token.length
                &&& final(self).tree.nodes()[c].2.issues@.len() == 0
                &&& final(self).tree.nodes()[c].2.node_type == CssNodeType::Undefined
            },
            old(self).token.token_type == TokenType::AtKeyword ==> final(self).state() == consumed(
                old(self).src(),
                old(self).scanner.ignore_whitespace,
                old(self).scanner.ignore_comments,
                old(self).state(),
            ),
            old(self).token.token_type != TokenType::AtKeyword ==> final(self).state() == old(self).state(),
            final(self).scanner.keeps(old(self).scanner),
            final(self).last_error() == old(self).last_error(),
            final(self).root() == old(self).root(),
            final(self).tree.root_id() == old(self).tree.root_id(),
    {
        let node = self.orphan(CssNodeType::Undefined);
        if self.accept(TokenType::AtKeyword) {
            self.finish_length(node);
            proof {
                assert(self.tree.nodes().dom() =~= old(self).tree.nodes().dom().insert(node));
            }
        }
        Some(node)
    }

    /// An at-rule of a name the parser does not know, read by counting brackets: from its
    /// at-keyword up to a `;` outside all brackets or the `}` that closes its first block.
    /// `None`, with nothing changed, when the current token is no at-keyword.
    #[verifier::spinoff_prover]
    #[verifier::rlimit(80)]
    pub fn parse_unknown_at_rule(&mut self) -> (r: Option<NodeId>)
        requires
            old(self).wf(),
        ensures
            final(self).wf(),
            grew(*old(self), *final(self)),
            gave(*old(self), *final(self), r),
            r is Some ==> moved(*old(self), *final(self)),
            old(self).token.token_type != TokenType::AtKeyword ==> r is None && *final(self)
                == *old(self),
            old(self).token.token_type == TokenType::AtKeyword ==> (r matches Some(n)
                && unknown_at_rule_parsed(*old(self), *final(self), n)),
    {
        if !self.peek(TokenType::AtKeyword) {
            return None;
        }
        let ghost s = self.src();
        let ghost iw = self.scanner.ignore_whitespace;
        let ghost ic = self.scanner.ignore_comments;
        let ghost m = self.tree.nodes();
        let ghost t0 = self.state().tok;
        proof {
            lemma_consumed(s, iw, ic, self.state());
        }
        let node = self.orphan(CssNodeType::_BodyDeclaration(BodyDeclaration {
            declarations: None,
            body_decl_type: BodyDeclarationType::UnknownAtRule(UnknownAtRule { at_rule_name: String::new() }),
        }));
        let ghost m1 = self.tree.nodes();
        let name = self.parse_unknown_at_rule_name().unwrap();
        let ghost m_name = self.tree.nodes();
        proof {
            assert(m_name.contains_key(node));
            assert(m_name[name].0 is None);
        }
        let appended = self.tree_append(node, name);
        let ghost st1 = self.state();
        assert(left(s, st1) < left(s, old(self).state()));
        let ghost goal = at_rule_run(s, iw, ic, st1, 0, 0, 0, 0);
        proof {
            self.scanner.stream.lemma_wf_bound();
        }
        let mut cl: i128 = 0;
        let mut cd: i128 = 0;
        let mut pd: i128 = 0;
        let mut bd: i128 = 0;
        let mut finish = false;
        let mut err: Option<ParseError> = None;
        let ghost tree_before = self.tree;
        let ghost last_before = self.last_error();
        let ghost root_before = self.root();
        loop
            invariant_except_break
                self.wf(),
                self.src() == s,
                self.scanner.ignore_whitespace == iw,
                self.scanner.ignore_comments == ic,
                self.scanner.keeps(old(self).scanner),
                self.tree == tree_before,
                self.last_error() == last_before,
                self.root() == root_before,
                !finish,
                err is None,
                0 <= cl <= self.state().pos + 2,
                0 <= cd <= self.state().pos + 2,
                0 <= pd <= self.state().pos + 2,
                0 <= bd <= self.state().pos + 2,
                !(self.state().tok.tt is EOF) ==> cl <= self.state().pos + 1 && cd <= self.state().pos
                    + 1 && pd <= self.state().pos + 1 && bd <= self.state().pos + 1,
                blen(s) <= isize::MAX,
                at_rule_run(s, iw, ic, self.state(), cl as int, cd as int, pd as int, bd as int) == goal,
                left(s, self.state()) < left(s, old(self).state()),
            ensures
                left(s, self.state()) < left(s, old(self).state()),
                self.wf(),
                self.src() == s,
                self.scanner.keeps(old(self).scanner),
                self.tree == tree_before,
                self.last_error() == last_before,
                self.root() == root_before,
                self.state() == goal.1,
                finish == (goal.0 is Finish),
                finish ==> goal.0 == AtRuleEnd::Finish(err),
            decreases left(s, self.state()),
        {
            let ghost st = self.state();
            proof {
                lemma_consumed(s, iw, ic, st);
            }
            let tt = self.token.token_type;
            match tt {
                TokenType::SemiColon => {
                    if cd == 0 && pd == 0 && bd == 0 {
                        break;
                    }
                },
                TokenType::EOF => {
                    finish = true;
                    if cd > 0 {
                        err = Some(ParseError::RightCurlyExpected);
                    } else if bd > 0 {
                        err = Some(ParseError::RightSquareBracketExpected);
                    } else if pd > 0 {
                        err = Some(ParseError::RightParenthesisExpected);
                    }
                    break;
                },
                TokenType::CurlyL => {
                    cl = cl + 1;
                    cd = cd + 1;
                },
                TokenType::CurlyR => {
                    cd = cd - 1;
                    if cl > 0 && cd == 0 {
                        self.consume_token();
                        if bd > 0 {
                            finish = true;
                            err = Some(ParseError::RightSquareBracketExpected);
                        } else if pd > 0 {
                            finish = true;
                            err = Some(ParseError::RightParenthesisExpected);
                        }
                        break;
                    }
                    if cd < 0 {
                        if pd != 0 || bd != 0 {
                            finish = true;
                            err = Some(ParseError::LeftCurlyExpected);
                        }
                        break;
                    }
                },
                TokenType::ParenthesisL => {
                    pd = pd + 1;
                },
                TokenType::ParenthesisR => {
                    pd = pd - 1;
                    if pd < 0 {
                        finish = true;
                        err = Some(ParseError::LeftParenthesisExpected);
                        break;
                    }
                },
                TokenType::BracketL => {
                    bd = bd + 1;
                },
                TokenType::BracketR => {
                    bd = bd - 1;
                    if bd < 0 {
                        finish = true;
                        err = Some(ParseError::LeftSquareBracketExpected);
                        break;
                    }
                },
                _ => {},
            }
            self.consume_token();
        }
        let ghost m_loop = self.tree.nodes();
        if finish {
            if let Some(e) = err {
                self.mark_error(node, e);
            }
            self.finish_length(node);
        }
        proof {
            let m2 = self.tree.nodes();
            assert(m2.dom() =~= m.dom().insert(node).insert(name));
            assert(m2[node].1 =~= seq![name]);
            assert forall|k: NodeId| #[trigger] m.contains_key(k) implies m2[k] == m[k] by {
                assert(k != node && k != name);
            }
        }
        Some(node)
    }

    /// The value of a custom property, read by counting brackets up to a `;` or `!`
    /// outside all brackets; a closing bracket with no opening one ends it without error
    /// when it is one of `stop_tokens`.
    #[verifier::spinoff_prover]
    #[verifier::rlimit(80)]
    pub fn parse_custom_property_value(&mut self, stop_tokens: &[TokenType]) -> (r: NodeId)
        requires
            old(self).wf(),
        ensures
            final(self).wf(),
            grew(*old(self), *final(self)),
            gave(*old(self), *final(self), Some(r)),
            prop_value_parsed(*old(self), *final(self), stop_tokens@, r),
    {
        let ghost s = self.src();
        let ghost iw = self.scanner.ignore_whitespace;
        let ghost ic = self.scanner.ignore_comments;
        let ghost m = self.tree.nodes();
        let ghost goal = prop_value_run(s, iw, ic, self.state(), stop_tokens@, 0, 0, 0);
        let node = self.orphan(CssNodeType::CustomPropertyValue);
        proof {
            self.scanner.stream.lemma_wf_bound();
        }
        let mut cd: i128 = 0;
        let mut pd: i128 = 0;
        let mut bd: i128 = 0;
        let mut err: Option<ParseError> = None;
        let ghost tree_before = self.tree;
        let ghost last_before = self.last_error();
        let ghost root_before = self.root();
        loop
            invariant_except_break
                self.wf(),
                self.src() == s,
                self.scanner.ignore_whitespace == iw,
                self.scanner.ignore_comments == ic,
                self.scanner.keeps(old(self).scanner),
                self.tree == tree_before,
                self.last_error() == last_before,
                self.root() == root_before,
                err is None,
                0 <= cd <= self.state().pos + 2,
                0 <= pd <= self.state().pos + 2,
                0 <= bd <= self.state().pos + 2,
                !(self.state().tok.tt is EOF) ==> cd <= self.state().pos + 1 && pd <= self.state().pos
                    + 1 && bd <= self.state().pos + 1,
                blen(s) <= isize::MAX,
                prop_value_run(s, iw, ic, self.state(), stop_tokens@, cd as int, pd as int, bd as int)
                    == goal,
                left(s, self.state()) <= left(s, old(self).state()),
            ensures
                left(s, self.state()) <= left(s, old(self).state()),
                self.wf(),
                self.src() == s,
                self.scanner.keeps(old(self).scanner),
                self.tree == tree_before,
                self.last_error() == last_before,
                self.root() == root_before,
                self.state() == goal.1,
                err == goal.0,
            decreases left(s, self.state()),
        {
            let ghost st = self.state();
            proof {
                lemma_consumed(s, iw, ic, st);
            }
            let tt = self.token.token_type;
            let on_stop = contains_token_type(stop_tokens, tt);
            match tt {
                TokenType::SemiColon | TokenType::Exclamation => {
                    if cd == 0 && pd == 0 && bd == 0 {
                        break;
                    }
                },
                TokenType::CurlyL => {
                    cd = cd + 1;
                },
                TokenType::CurlyR => {
                    cd = cd - 1;
                    if cd < 0 {
                        if !(on_stop && pd == 0 && bd == 0) {
                            err = Some(ParseError::LeftCurlyExpected);
                        }
                        break;
                    }
                },
                TokenType::ParenthesisL => {
                    pd = pd + 1;
                },
                TokenType::ParenthesisR => {
                    pd = pd - 1;
                    if pd < 0 {
                        if !(on_stop && bd == 0 && cd == 0) {
                            err = Some(ParseError::LeftParenthesisExpected);
                        }
                        break;
                    }
                },
                TokenType::BracketL => {
                    bd = bd + 1;
                },
                TokenType::BracketR => {
                    bd = bd - 1;
                    if bd < 0 {
                        err = Some(ParseError::LeftSquareBracketExpected);
                        break;
                    }
                },
                TokenType::BadString => {
                    break;
                },
                TokenType::EOF => {
                    if bd > 0 {
                        err = Some(ParseError::RightSquareBracketExpected);
                    } else if pd > 0 {
                        err = Some(ParseError::RightParenthesisExpected);
                    } else {
                        err = Some(ParseError::RightCurlyExpected);
                    }
                    break;
                },
                _ => {},
            }
            self.consume_token();
        }
        if let Some(e) = err {
            self.mark_error(node, e);
        }
        self.finish_length(node);
        proof {
            let m2 = self.tree.nodes();
            assert(m2.dom() =~= m.dom().insert(node));
            assert forall|k: NodeId| #[trigger] m.contains_key(k) implies m2[k] == m[k] by {
                assert(k != node);
            }
        }
        node
    }

    /// Saves where the parser stands.
    pub fn mark(&self) -> (r: Mark)
        ensures
            r.state() == self.state(),
            r.last_error() == self.last_error(),
    {
        Mark {
            prev: copy_opt_token(&self.prev_token),
            curr: copy_token(&self.token),
            pos: self.scanner.get_position(),
            last_err: copy_opt_token(&self.last_error_token),
        }
    }

    /// Goes back to where `mark` was made; the tree stays as it is.
    pub fn restore_at_mark(&mut self, mark: Mark)
        requires
            old(self).wf(),
            readable(old(self).src(), mark.state()),
            old(self).tok_fits(mark.state().tok),
            mark.state().tok.tt is EOF <==> mark.state().tok.length == 0,
            mark.state().prev matches Some(p) ==> old(self).tok_fits(p),
        ensures
            final(self).wf(),
            final(self).state() == mark.state(),
            final(self).last_error() == mark.last_error(),
            final(self).scanner.keeps(old(self).scanner),
            final(self).tree == old(self).tree,
            final(self).root() == old(self).root(),
            final(self).ps() == (PS { st: mark.state(), le: mark.last_error(), ..old(self).ps() }),
            final(self).ctx() == old(self).ctx(),
    {
        proof {
            assert(mark.state().pos == mark.pos);
        }
        self.prev_token = mark.prev;
        self.token = mark.curr;
        self.scanner.set_position(mark.pos);
        self.last_error_token = mark.last_err;
    }

    /// Whether text was skipped between the previous token and the current one.
    pub fn has_whitespace(&self) -> (r: bool)
        requires
            self.wf(),
        ensures
            r == (self.state().prev matches Some(p) && p.offset + p.length != self.state().tok.offset),
    {
        proof {
            self.scanner.stream.lemma_wf_bound();
        }
        match &self.prev_token {
            Some(p) => p.offset + p.length != self.token.offset,
            None => false,
        }
    }

    /// Whether the current token is one of `token_types`.
    pub fn peek_one(&self, token_types: &[TokenType]) -> (r: bool)
        ensures
            r == token_types@.contains(self.token.token_type),
    {
        contains_token_type(token_types, self.token.token_type)
    }

    /// Whether the current token is the delimiter `text`.
    pub fn peek_delim(&self, text: &str) -> (r: bool)
        ensures
            r == (self.token.token_type == TokenType::Delim && self.token.text@ == text@),
    {
        self.peek(TokenType::Delim) && self.token.text == text.to_owned()
    }

    /// Takes the current token when it is the delimiter `text`.
    pub fn accept_delim(&mut self, text: &str) -> (r: bool)
        requires
            old(self).wf(),
        ensures
            final(self).wf(),
            r == (old(self).token.token_type == TokenType::Delim && old(self).token.text@ == text@),
            r ==> final(self).state() == consumed(old(self).src(), old(self).scanner.ignore_whitespace, old(self).scanner.ignore_comments, old(self).state()),
            !r ==> *final(self) == *old(self),
            final(self).scanner.keeps(old(self).scanner),
            final(self).tree == old(self).tree,
            final(self).last_error() == old(self).last_error(),
            final(self).root() == old(self).root(),
            (r, final(self).ps()) == sp_accept_delim(old(self).ctx(), old(self).ps(), text@),
            final(self).ctx() == old(self).ctx(),
            left(final(self).src(), final(self).state()) <= left(old(self).src(), old(self).state()),
            r ==> left(final(self).src(), final(self).state()) < left(old(self).src(), old(self).state()),
    {
        if self.peek_delim(text) {
            self.consume_token();
            true
        } else {
            false
        }
    }

    /// Skips tokens up to one of `resync_tokens`, which is taken, or one of
    /// `resync_stop_tokens`, which is not; `false` when the end of the text comes first.
    pub fn resync(&mut self, resync_tokens: Option<&[TokenType]>, resync_stop_tokens: Option<&[TokenType]>) -> (r: bool)
        requires
            old(self).wf(),
        ensures
            final(self).wf(),
            (r, final(self).state()) == resync_run(
                old(self).src(),
                old(self).scanner.ignore_whitespace,
                old(self).scanner.ignore_comments,
                old(self).state(),
                opt_types(resync_tokens),
                opt_types(resync_stop_tokens),
            ),
            final(self).scanner.keeps(old(self).scanner),
            final(self).tree == old(self).tree,
            final(self).last_error() == old(self).last_error(),
            final(self).root() == old(self).root(),
            final(self).ctx() == old(self).ctx(),
            left(final(self).src(), final(self).state()) <= left(old(self).src(), old(self).state()),
    {
        let ghost s = self.src();
        let ghost iw = self.scanner.ignore_whitespace;
        let ghost ic = self.scanner.ignore_comments;
        let ghost goal = resync_run(s, iw, ic, self.state(), opt_types(resync_tokens), opt_types(resync_stop_tokens));
        loop
            invariant
                self.wf(),
                self.src() == s,
                self.scanner.ignore_whitespace == iw,
                self.scanner.ignore_comments == ic,
                self.scanner.keeps(old(self).scanner),
                self.tree == old(self).tree,
                self.last_error() == old(self).last_error(),
                self.root() == old(self).root(),
                resync_run(s, iw, ic, self.state(), opt_types(resync_tokens), opt_types(resync_stop_tokens)) == goal,
                left(s, self.state()) <= left(old(self).src(), old(self).state()),
                goal == resync_run(
                    old(self).src(),
                    old(self).scanner.ignore_whitespace,
                    old(self).scanner.ignore_comments,
                    old(self).state(),
                    opt_types(resync_tokens),
                    opt_types(resync_stop_tokens),
                ),
            decreases left(s, self.state()),
        {
            let ghost st = self.state();
            proof {
                lemma_consumed(s, iw, ic, st);
            }
            let in_resync = match resync_tokens {
                Some(rts) => contains_token_type(rts, self.token.token_type),
                None => false,
            };
            if in_resync {
                self.consume_token();
                return true;
            }
            let in_stop = match resync_stop_tokens {
                Some(rts) => contains_token_type(rts, self.token.token_type),
                None => false,
            };
            if in_stop {
                return true;
            }
            if self.peek(TokenType::EOF) {
                return false;
            }
            self.token = self.scanner.scan();
        }
    }

    /// A node of type `node_type` spanning the current token, which is taken.
    fn token_node(&mut self, node_type: CssNodeType) -> (r: NodeId)
        requires
            old(self).wf(),
        ensures
            final(self).wf(),
            token_node_parsed(*old(self), *final(self), r, node_type),
            (r, final(self).ps()) == sp_token_node(old(self).ctx(), old(self).ps(), type_v(node_type)),
            final(self).ctx() == old(self).ctx(),
            !(old(self).state().tok.tt is EOF) ==> kept(old(self).ctx(), old(self).ps(), final(self).ps(), Some(r)),
    {
        proof {
            lemma_consumed(self.src(), self.scanner.ignore_whitespace, self.scanner.ignore_comments, self.state());
        }
        let node = self.orphan(node_type);
        self.consume_token();
        self.finish_length(node);
        proof {
            let m = old(self).tree.nodes();
            let m2 = self.tree.nodes();
            assert(m2 =~= m.insert(node, m2[node]));
        }
        node
    }

    /// Whether the current token is the delimiter `c`.
    fn peek_delim_char(&self, c: char) -> (r: bool)
        ensures
            r == is_delim(self.state().tok, c),
    {
        if !self.peek(TokenType::Delim) {
            return false;
        }
        let v = crate::text::collect_chars(self.token.text.as_str());
        if v.len() == 1 && v[0] == c {
            assert(v@ =~= seq![c]);
            true
        } else {
            false
        }
    }

    /// An operator of a binary expression (`/`, `*`, `+`, `-`, `=` or an attribute
    /// operator), when the current token is one.
    pub fn parse_operator(&mut self) -> (r: Option<NodeId>)
        requires
            old(self).wf(),
        ensures
            final(self).wf(),
            grew(*old(self), *final(self)),
            gave(*old(self), *final(self), r),
            r is Some ==> moved(*old(self), *final(self)),
            is_operator_token(old(self).state().tok) ==> (r matches Some(n) && token_node_parsed(
                *old(self),
                *final(self),
                n,
                CssNodeType::Operator,
            )),
            !is_operator_token(old(self).state().tok) ==> r is None && *final(self) == *old(self),
            (r, final(self).ps()) == sp_operator(old(self).ctx(), old(self).ps()),
            final(self).ctx() == old(self).ctx(),
            kept(old(self).ctx(), old(self).ps(), final(self).ps(), r),
    {
        if self.peek_delim_char('/') || self.peek_delim_char('*') || self.peek_delim_char('+')
            || self.peek_delim_char('-') || self.peek(TokenType::Dashmatch) || self.peek(TokenType::Includes)
            || self.peek(TokenType::SubstringOperator) || self.peek(TokenType::PrefixOperator)
            || self.peek(TokenType::SuffixOperator) || self.peek_delim_char('=') {
            Some(self.token_node(CssNodeType::Operator))
        } else {
            None
        }
    }

    /// A unary `+` or `-`, when the current token is one.
    pub fn parse_unary_operator(&mut self) -> (r: Option<NodeId>)
        requires
            old(self).wf(),
        ensures
            final(self).wf(),
            grew(*old(self), *final(self)),
            gave(*old(self), *final(self), r),
            r is Some ==> moved(*old(self), *final(self)),
            (is_delim(old(self).state().tok, '+') || is_delim(old(self).state().tok, '-')) ==> (r matches Some(n)
                && token_node_parsed(*old(self), *final(self), n, CssNodeType::Undefined)),
            !(is_delim(old(self).state().tok, '+') || is_delim(old(self).state().tok, '-')) ==> r is None
                && *final(self) == *old(self),
            (r, final(self).ps()) == sp_unary_operator(old(self).ctx(), old(self).ps()),
            final(self).ctx() == old(self).ctx(),
            kept(old(self).ctx(), old(self).ps(), final(self).ps(), r),
    {
        if !self.peek_delim_char('+') && !self.peek_delim_char('-') {
            return None;
        }
        Some(self.token_node(CssNodeType::Undefined))
    }

    /// The nesting selector `&`, when the current token is one.
    pub fn parse_nesting_selector(&mut self) -> (r: Option<NodeId>)
        requires
            old(self).wf(),
        ensures
            final(self).wf(),
            grew(*old(self), *final(self)),
            gave(*old(self), *final(self), r),
            r is Some ==> moved(*old(self), *final(self)),
            is_delim(old(self).state().tok, '&') ==> (r matches Some(n) && token_node_parsed(
                *old(self),
                *final(self),
                n,
                CssNodeType::SelectorCombinator,
            )),
            !is_delim(old(self).state().tok, '&') ==> r is None && *final(self) == *old(self),
    {
        if self.peek_delim_char('&') {
            return Some(self.token_node(CssNodeType::SelectorCombinator));
        }
        None
    }

    /// A number, with or without a unit, when the current token is one.
    pub fn parse_numeric(&mut self) -> (r: Option<NodeId>)
        requires
            old(self).wf(),
        ensures
            final(self).wf(),
            grew(*old(self), *final(self)),
            gave(*old(self), *final(self), r),
            r is Some ==> moved(*old(self), *final(self)),
            is_numeric_type(old(self).token.token_type) ==> (r matches Some(n) && token_node_parsed(
                *old(self),
                *final(self),
                n,
                CssNodeType::NumericValue,
            )),
            !is_numeric_type(old(self).token.token_type) ==> r is None && *final(self) == *old(self),
            (r, final(self).ps()) == sp_numeric(old(self).ctx(), old(self).ps()),
            final(self).ctx() == old(self).ctx(),
            kept(old(self).ctx(), old(self).ps(), final(self).ps(), r),
    {
        if self.peek(TokenType::Num) || self.peek(TokenType::Percentage) || self.peek(TokenType::Resolution)
            || self.peek(TokenType::Length) || self.peek(TokenType::EMS) || self.peek(TokenType::EXS)
            || self.peek(TokenType::Angle) || self.peek(TokenType::Time) || self.peek(TokenType::Dimension)
            || self.peek(TokenType::ContainerQueryLength) || self.peek(TokenType::Freq) {
            return Some(self.token_node(CssNodeType::NumericValue));
        }
        None
    }

    /// A string, well-formed or not, when the current token is one.
    pub fn parse_string_literal(&mut self) -> (r: Option<NodeId>)
        requires
            old(self).wf(),
        ensures
            final(self).wf(),
            grew(*old(self), *final(self)),
            gave(*old(self), *final(self), r),
            r is Some ==> moved(*old(self), *final(self)),
            (old(self).token.token_type == TokenType::String || old(self).token.token_type
                == TokenType::BadString) ==> (r matches Some(n) && token_node_parsed(
                *old(self),
                *final(self),
                n,
                CssNodeType::StringLiteral,
            )),
            !(old(self).token.token_type == TokenType::String || old(self).token.token_type
                == TokenType::BadString) ==> r is None && *final(self) == *old(self),
            (r, final(self).ps()) == sp_string_literal(old(self).ctx(), old(self).ps()),
            final(self).ctx() == old(self).ctx(),
            kept(old(self).ctx(), old(self).ps(), final(self).ps(), r),
    {
        if !self.peek(TokenType::String) && !self.peek(TokenType::BadString) {
            return None;
        }
        Some(self.token_node(CssNodeType::StringLiteral))
    }

    /// Whether the current token is an identifier that reads `text` once lower-cased.
    pub fn peek_ident(&self, text: &str) -> (r: bool)
        ensures
            r == is_ident_text(self.state().tok, text@),
    {
        self.peek(TokenType::Ident) && crate::text::str_len(text) == crate::text::str_len(self.token.text.as_str())
            && crate::text::str_to_lowercase(self.token.text.as_str()) == text.to_owned()
    }

    /// Takes the current token when it is an identifier that reads `text` once
    /// lower-cased.
    pub fn accept_ident(&mut self, text: &str) -> (r: bool)
        requires
            old(self).wf(),
        ensures
            final(self).wf(),
            r == is_ident_text(old(self).state().tok, text@),
            r ==> final(self).state() == consumed(old(self).src(), old(self).scanner.ignore_whitespace, old(self).scanner.ignore_comments, old(self).state()),
            !r ==> *final(self) == *old(self),
            final(self).scanner.keeps(old(self).scanner),
            final(self).tree == old(self).tree,
            final(self).last_error() == old(self).last_error(),
            final(self).root() == old(self).root(),
            final(self).ctx() == old(self).ctx(),
            left(final(self).src(), final(self).state()) <= left(old(self).src(), old(self).state()),
            r ==> left(final(self).src(), final(self).state()) < left(old(self).src(), old(self).state()),
    {
        if self.peek_ident(text) {
            self.consume_token();
            true
        } else {
            false
        }
    }

    /// An identifier, when the current token is one; it knows whether it names a custom
    /// property and carries `reference_types`.
    pub fn parse_ident(&mut self, reference_types: Option<&[ReferenceType]>) -> (r: Option<NodeId>)
        requires
            old(self).wf(),
        ensures
            final(self).wf(),
            grew(*old(self), *final(self)),
            gave(*old(self), *final(self), r),
            r is Some ==> moved(*old(self), *final(self)),
            old(self).token.token_type != TokenType::Ident ==> r is None && *final(self) == *old(self),
            old(self).token.token_type == TokenType::Ident ==> (r matches Some(n) && {
                &&& token_node_parsed(*old(self), *final(self), n, final(self).tree.nodes()[n].2.node_type)
                &&& final(self).tree.nodes()[n].2.node_type matches CssNodeType::Identifier(i)
                &&& i.is_custom_property == starts_with_dashes(old(self).token.text@)
                &&& (reference_types is None ==> i.reference_types is None)
                &&& (reference_types matches Some(rt) ==> i.reference_types matches Some(v) && v@ == rt@)
            }),
            (r, final(self).ps()) == sp_ident(old(self).ctx(), old(self).ps(), opt_refs(reference_types)),
            final(self).ctx() == old(self).ctx(),
            kept(old(self).ctx(), old(self).ps(), final(self).ps(), r),
    {
        if !self.peek(TokenType::Ident) {
            return None;
        }
        let refs = match reference_types {
            Some(rt) => Some(copy_reference_types(rt)),
            None => None,
        };
        let custom = starts_with_two_dashes(self.token.text.as_str());
        let node_type = CssNodeType::Identifier(Identifier { reference_types: refs, is_custom_property: custom });
        Some(self.token_node(node_type))
    }

    /// `!important`, when the current token is `!`. The `!` is taken in any case, and a
    /// node for it made; the node is given back, reaching the end of `important`, only
    /// when `important` follows.
    pub fn parse_prio(&mut self) -> (r: Option<NodeId>)
        requires
            old(self).wf(),
        ensures
            final(self).wf(),
            grew(*old(self), *final(self)),
            gave(*old(self), *final(self), r),
            r is Some ==> moved(*old(self), *final(self)),
            old(self).token.token_type != TokenType::Exclamation ==> r is None && *final(self) == *old(self),
            old(self).token.token_type == TokenType::Exclamation ==> ({
                let p = *old(self);
                let st1 = consumed(p.src(), p.scanner.ignore_whitespace, p.scanner.ignore_comments, p.state());
                let important = is_ident_text(st1.tok, "important"@);
                let t0 = p.state().tok;
                exists|n: NodeId| {
                    &&& !p.tree.nodes().contains_key(n)
                    &&& final(self).tree.nodes() == p.tree.nodes().insert(n, final(self).tree.nodes()[n])
                    &&& final(self).tree.nodes()[n].0 is None
                    &&& final(self).tree.nodes()[n].1.len() == 0
                    &&& final(self).tree.nodes()[n].2.offset == t0.offset
                    &&& final(self).tree.nodes()[n].2.issues@.len() == 0
                    &&& final(self).tree.nodes()[n].2.node_type == CssNodeType::Prio
                    &&& (important ==> r == Some(n) && final(self).state() == consumed(
                        p.src(),
                        p.scanner.ignore_whitespace,
                        p.scanner.ignore_comments,
                        st1,
                    ) && final(self).tree.nodes()[n].2.length == finished_length(
                        t0.offset,
                        t0.length,
                        Some(st1.tok),
                    ))
                    &&& (!important ==> r is None && final(self).state() == st1
                        && final(self).tree.nodes()[n].2.length == t0.length)
                }
            }),
            final(self).scanner.keeps(old(self).scanner),
            final(self).last_error() == old(self).last_error(),
            final(self).root() == old(self).root(),
            final(self).tree.root_id() == old(self).tree.root_id(),
    {
        if !self.peek(TokenType::Exclamation) {
            return None;
        }
        let node = self.orphan(CssNodeType::Prio);
        let _ = self.accept(TokenType::Exclamation);
        if self.accept_ident("important") {
            self.finish_length(node);
            proof {
                let m2 = self.tree.nodes();
                assert(m2 =~= old(self).tree.nodes().insert(node, m2[node]));
            }
            return Some(node);
        }
        None
    }

    /// A property name: an identifier, after an optional `*` or `_` that must touch it.
    #[verifier::spinoff_prover]
    #[verifier::rlimit(60)]
    pub fn parse_property(&mut self) -> (r: Option<NodeId>)
        requires
            old(self).wf(),
        ensures
            final(self).wf(),
            grew(*old(self), *final(self)),
            gave(*old(self), *final(self), r),
            r is Some ==> moved(*old(self), *final(self)),
            property_parsed(*old(self), *final(self), r),
    {
        let ghost m = self.tree.nodes();
        proof {
            reveal_strlit("*");
            reveal_strlit("_");
            assert("*"@ =~= seq!['*']);
            assert("_"@ =~= seq!['_']);
        }
        let node = self.orphan(CssNodeType::Property(Property { identifier: self.root }));
        let mark = self.mark();
        if self.accept_delim("*") || self.accept_delim("_") {
            if self.has_whitespace() {
                self.restore_at_mark(mark);
                proof {
                    assert(self.tree.nodes() =~= m.insert(node, self.tree.nodes()[node]));
                    assert(property_node(*old(self), *self, None, node));
                }
                return None;
            }
        }
        if let Some(prop) = self.parse_ident(None) {
            let mut v = self.tree_take(node);
            v.node_type = CssNodeType::Property(Property { identifier: prop });
            self.tree_put(node, v);
            let _ = self.tree_append(node, prop);
            self.finish_length(node);
            proof {
                let m2 = self.tree.nodes();
                assert(m2.dom() =~= m.dom().insert(node).insert(prop));
                assert(m2[node].1 =~= seq![prop]);
                assert forall|k: NodeId| #[trigger] m.contains_key(k) implies m2[k] == m[k] by {
                    assert(k != node && k != prop);
                }
                assert(property_node(*old(self), *self, Some(node), node));
            }
            return Some(node);
        }
        proof {
            assert(self.tree.nodes() =~= m.insert(node, self.tree.nodes()[node]));
            assert(property_node(*old(self), *self, None, node));
        }
        None
    }

    /// Reads a unicode range from the scanner's position (the current token being the
    /// `u` before it) and takes the token after it.
    pub fn accept_unicode_range(&mut self) -> (r: bool)
        requires
            old(self).wf(),
        ensures
            final(self).wf(),
            r == unicode_range(old(self).src(), cidx(old(self).src(), old(self).state().pos)->0) is Some,
            r ==> final(self).state() == after_unicode_range(
                old(self).src(),
                old(self).scanner.ignore_whitespace,
                old(self).scanner.ignore_comments,
                old(self).state(),
            ),
            !r ==> final(self).state() == old(self).state(),
            final(self).scanner.keeps(old(self).scanner),
            final(self).tree == old(self).tree,
            final(self).last_error() == old(self).last_error(),
            final(self).root() == old(self).root(),
            final(self).ctx() == old(self).ctx(),
            r && !(old(self).state().tok.tt is EOF) ==> left(final(self).src(), final(self).state()) < left(
                old(self).src(),
                old(self).state(),
            ),
    {
        let ghost s = self.src();
        proof {
            lemma_cidx_some(s, self.state().pos);
            lemma_unicode_range_bounds(s, cidx(s, self.state().pos)->0);
        }
        match self.scanner.try_scan_unicode() {
            Some(_) => {
                proof {
                    let e = unicode_range(s, cidx(s, old(self).state().pos)->0)->0;
                    crate::text::lemma_cidx_bp(s, e);
                    lemma_bp_full(s);
                    lemma_bp_mono(s, e, s.len() as int);
                    lemma_cidx_some(s, self.scanner.pos());
                    assert(self.scanner.pos() == bp(s, e));
                    lemma_cidx_some(s, old(self).state().pos);
                    lemma_bp_mono(s, cidx(s, old(self).state().pos)->0, e);
                }
                self.consume_token();
                true
            },
            None => false,
        }
    }

    /// A unicode range after a `u`, when the current token is the identifier `u`. The
    /// node for it is made once the `u` is seen; it is given back, reaching the end of
    /// the token after the range, only when a range follows.
    pub fn parse_unicode_range(&mut self) -> (r: Option<NodeId>)
        requires
            old(self).wf(),
        ensures
            final(self).wf(),
            grew(*old(self), *final(self)),
            gave(*old(self), *final(self), r),
            r is Some ==> moved(*old(self), *final(self)),
            !is_ident_text(old(self).state().tok, seq!['u']) ==> r is None && *final(self) == *old(self),
            is_ident_text(old(self).state().tok, seq!['u']) ==> ({
                let p = *old(self);
                let s = p.src();
                let t0 = p.state().tok;
                let ranged = unicode_range(s, cidx(s, p.state().pos)->0) is Some;
                let after = after_unicode_range(s, p.scanner.ignore_whitespace, p.scanner.ignore_comments, p.state());
                exists|n: NodeId| {
                    &&& #[trigger] p.tree.nodes().insert(n, final(self).tree.nodes()[n]) == final(self).tree.nodes()
                    &&& !p.tree.nodes().contains_key(n)
                    &&& final(self).tree.nodes()[n].0 is None
                    &&& final(self).tree.nodes()[n].1.len() == 0
                    &&& final(self).tree.nodes()[n].2.offset == t0.offset
                    &&& final(self).tree.nodes()[n].2.issues@.len() == 0
                    &&& final(self).tree.nodes()[n].2.node_type == CssNodeType::UnicodeRange(
                        UnicodeRange { range_start: p.root(), range_end: p.root() },
                    )
                    &&& (ranged ==> r == Some(n) && final(self).state() == after
                        && final(self).tree.nodes()[n].2.length == finished_length(t0.offset, t0.length, after.prev))
                    &&& (!ranged ==> r is None && final(self).state() == p.state()
                        && final(self).tree.nodes()[n].2.length == t0.length)
                }
            }),
            final(self).scanner.keeps(old(self).scanner),
            final(self).last_error() == old(self).last_error(),
            final(self).root() == old(self).root(),
            final(self).tree.root_id() == old(self).tree.root_id(),
            (r, final(self).ps()) == sp_unicode_range(old(self).ctx(), old(self).ps()),
            final(self).ctx() == old(self).ctx(),
            kept(old(self).ctx(), old(self).ps(), final(self).ps(), r),
    {
        proof {
            reveal_strlit("u");
            assert("u"@ =~= seq!['u']);
        }
        if !self.peek_ident("u") {
            return None;
        }
        let node = self.orphan(CssNodeType::UnicodeRange(UnicodeRange { range_start: self.root, range_end: self.root }));
        if !self.accept_unicode_range() {
            proof {
                let m2 = self.tree.nodes();
                assert(old(self).tree.nodes().insert(node, m2[node]) =~= m2);
            }
            return None;
        }
        self.finish_length(node);
        proof {
            let m2 = self.tree.nodes();
            assert(old(self).tree.nodes().insert(node, m2[node]) =~= m2);
        }
        Some(node)
    }

    /// `!important`, or nothing with the parser as it was (but for the node made for a
    /// `!` not followed by `important`).
    pub fn _tryparse_prio(&mut self) -> (r: Option<NodeId>)
        requires
            old(self).wf(),
        ensures
            final(self).wf(),
            grew(*old(self), *final(self)),
            gave(*old(self), *final(self), r),
            r is Some ==> moved(*old(self), *final(self)),
            r is Some ==> final(self).state() == consumed(
                old(self).src(),
                old(self).scanner.ignore_whitespace,
                old(self).scanner.ignore_comments,
                consumed(old(self).src(), old(self).scanner.ignore_whitespace, old(self).scanner.ignore_comments, old(self).state()),
            ),
            r is Some <==> (old(self).token.token_type == TokenType::Exclamation && is_ident_text(
                consumed(old(self).src(), old(self).scanner.ignore_whitespace, old(self).scanner.ignore_comments, old(self).state()).tok,
                "important"@,
            )),
            r is None ==> final(self).state() == old(self).state(),
            final(self).scanner.keeps(old(self).scanner),
            final(self).last_error() == old(self).last_error(),
            final(self).root() == old(self).root(),
    {
        let mark = self.mark();
        proof {
            lemma_consumed(self.src(), self.scanner.ignore_whitespace, self.scanner.ignore_comments, self.state());
        }
        match self.parse_prio() {
            Some(n) => Some(n),
            None => {
                self.restore_at_mark(mark);
                None
            },
        }
    }

    /// Reads the name of the selector part `node`, just after its `.` or `#`.
    #[verifier::spinoff_prover]
    #[verifier::rlimit(60)]
    fn name_part(&mut self, node: NodeId)
        requires
            old(self).wf(),
            old(self).tree.nodes().contains_key(node),
            old(self).tree.nodes()[node].0 is None,
            old(self).tree.nodes()[node].1.len() == 0,
            old(self).state().prev is Some,
        ensures
            final(self).wf(),
            part_named(*old(self), *final(self), node),
            left(final(self).src(), final(self).state()) <= left(old(self).src(), old(self).state()),
            final(self).ctx() == old(self).ctx(),
    {
        let ghost m = self.tree.nodes();
        if !self.has_whitespace() {
            if let Some(ident) = self.parse_ident(None) {
                let _ = self.tree_append(node, ident);
                self.finish_length(node);
                proof {
                    let m2 = self.tree.nodes();
                    assert(m2.dom() =~= m.dom().insert(ident));
                    assert(m2[node].1 =~= seq![ident]);
                }
                return;
            }
        }
        self.mark_error(node, ParseError::IdentifierExpected);
        self.finish_length(node);
        proof {
            let m2 = self.tree.nodes();
            assert(m2 =~= m.insert(node, m2[node]));
            let is = m2[node].2.issues@;
            if old(self).last_error() != Some(old(self).state().tok) {
                assert(is.len() > 0);
                assert(is =~= is.drop_last().push(is.last()));
            }
        }
    }

    /// A class selector, `.` and a name, when the current token is `.`. A missing or
    /// detached name is reported.
    pub fn parse_class(&mut self) -> (r: Option<NodeId>)
        requires
            old(self).wf(),
        ensures
            final(self).wf(),
            grew(*old(self), *final(self)),
            gave(*old(self), *final(self), r),
            r is Some ==> moved(*old(self), *final(self)),
            !is_delim(old(self).state().tok, '.') ==> r is None && *final(self) == *old(self),
            is_delim(old(self).state().tok, '.') ==> (r matches Some(n) && named_part_parsed(
                *old(self),
                *final(self),
                n,
                CssNodeType::ClassSelector,
            )),
    {
        if !self.peek_delim_char('.') {
            return None;
        }
        let node = self.token_node(CssNodeType::ClassSelector);
        let ghost mid = *self;
        self.name_part(node);
        assert(token_node_parsed(*old(self), mid, node, CssNodeType::ClassSelector));
        assert(mid.wf());
        assert(part_named(mid, *self, node));
        assert(named_part_parsed(*old(self), *self, node, CssNodeType::ClassSelector));
        Some(node)
    }

    /// An id selector, when the current token is a hash or a `#` (then followed by a
    /// name, whose absence is reported).
    pub fn parse_hash(&mut self) -> (r: Option<NodeId>)
        requires
            old(self).wf(),
        ensures
            final(self).wf(),
            grew(*old(self), *final(self)),
            gave(*old(self), *final(self), r),
            r is Some ==> moved(*old(self), *final(self)),
            !(old(self).token.token_type == TokenType::Hash || is_delim(old(self).state().tok, '#'))
                ==> r is None && *final(self) == *old(self),
            old(self).token.token_type == TokenType::Hash ==> (r matches Some(n) && token_node_parsed(
                *old(self),
                *final(self),
                n,
                CssNodeType::IdentifierSelector,
            )),
            is_delim(old(self).state().tok, '#') ==> (r matches Some(n) && named_part_parsed(
                *old(self),
                *final(self),
                n,
                CssNodeType::IdentifierSelector,
            )),
    {
        if self.peek(TokenType::Hash) {
            return Some(self.token_node(CssNodeType::IdentifierSelector));
        }
        if !self.peek_delim_char('#') {
            return None;
        }
        let node = self.token_node(CssNodeType::IdentifierSelector);
        let ghost mid = *self;
        self.name_part(node);
        assert(token_node_parsed(*old(self), mid, node, CssNodeType::IdentifierSelector));
        assert(mid.wf());
        assert(part_named(mid, *self, node));
        assert(named_part_parsed(*old(self), *self, node, CssNodeType::IdentifierSelector));
        Some(node)
    }

    /// A hex color, when the current token is a hash that counts as one.
    pub fn parse_hex_color(&mut self) -> (r: Option<NodeId>)
        requires
            old(self).wf(),
        ensures
            final(self).wf(),
            grew(*old(self), *final(self)),
            gave(*old(self), *final(self), r),
            r is Some ==> moved(*old(self), *final(self)),
            (old(self).token.token_type == TokenType::Hash && hex_color_text(old(self).token.text@)) ==> (
            r matches Some(n) && token_node_parsed(*old(self), *final(self), n, CssNodeType::HexColorValue)),
            !(old(self).token.token_type == TokenType::Hash && hex_color_text(old(self).token.text@)) ==> r is None
                && *final(self) == *old(self),
            (r, final(self).ps()) == sp_hex_color(old(self).ctx(), old(self).ps()),
            final(self).ctx() == old(self).ctx(),
            kept(old(self).ctx(), old(self).ps(), final(self).ps(), r),
    {
        if self.peek(TokenType::Hash) && is_hex_color_text(self.token.text.as_str()) {
            return Some(self.token_node(CssNodeType::HexColorValue));
        }
        None
    }

    /// A named grid line, `[` and identifiers up to `]`, when the current token is `[`.
    #[verifier::spinoff_prover]
    #[verifier::rlimit(50)]
    pub fn parse_named_line(&mut self) -> (r: Option<NodeId>)
        requires
            old(self).wf(),
        ensures
            final(self).wf(),
            grew(*old(self), *final(self)),
            gave(*old(self), *final(self), r),
            r is Some ==> moved(*old(self), *final(self)),
            final(self).ctx() == old(self).ctx(),
            (r, final(self).ps()) == sp_named_line(old(self).ctx(), old(self).ps()),
            kept(old(self).ctx(), old(self).ps(), final(self).ps(), r),
    {
        if !self.peek(TokenType::BracketL) {
            return None;
        }
        let ghost c = self.ctx();
        let node = self.orphan(CssNodeType::GridLine);
        self.consume_token();
        let ghost p0 = self.ps();
        loop
            invariant
                self.wf(),
                self.ctx() == c,
                sp_ident_children(c, self.ps(), node) == sp_ident_children(c, p0, node),
                self.ps().m.contains_key(node),
                self.ps().m[node].0 is None,
                old(self).ps().m.dom().subset_of(self.ps().m.dom()),
                !old(self).ps().m.contains_key(node),
                left(c.s, self.state()) < left(c.s, old(self).state()),
                same_on(old(self).tree.nodes(), self.tree.nodes()),
            ensures
                same_on(old(self).tree.nodes(), self.tree.nodes()),
                self.wf(),
                self.ctx() == c,
                self.ps() == sp_ident_children(c, p0, node),
                self.ps().m.contains_key(node),
                self.ps().m[node].0 is None,
                old(self).ps().m.dom().subset_of(self.ps().m.dom()),
                !old(self).ps().m.contains_key(node),
                left(c.s, self.state()) < left(c.s, old(self).state()),
            decreases left(c.s, self.state()),
        {
            match self.parse_ident(None) {
                Some(id) => {
                    self.append_node(node, id);
                },
                None => {
                    assert(sp_ident_children(c, self.ps(), node) == self.ps());
                    break;
                },
            }
        }
        let ghost p2 = self.ps();
        assert(p2 == sp_ident_children(c, p0, node));
        let closed = self.accept(TokenType::BracketR);
        let ghost p3 = self.ps();
        assert((closed, p3) == sp_accept(c, p2, TokenType::BracketR));
        self.finish(node, if closed { None } else { Some(ParseError::RightSquareBracketExpected) });
        assert(self.ps().m.dom() =~= p3.m.dom());
        Some(node)
    }

    /// Makes the node `child`, which has no parent, the last child of `parent`, when the
    /// tree has `parent`.
    pub fn append_node(&mut self, parent: NodeId, child: NodeId)
        requires
            old(self).wf(),
            old(self).ps().m.contains_key(child),
            old(self).ps().m[child].0 is None,
            child != parent,
        ensures
            final(self).wf(),
            final(self).ps() == sp_append(old(self).ps(), parent, child),
            final(self).ctx() == old(self).ctx(),
            final(self).scanner == old(self).scanner,
            final(self).state() == old(self).state(),
            final(self).last_error() == old(self).last_error(),
            final(self).tree.nodes() == if old(self).tree.nodes().contains_key(parent) {
                old(self).tree.nodes().insert(
                    child,
                    (Some(parent), old(self).tree.nodes()[child].1, old(self).tree.nodes()[child].2),
                ).insert(
                    parent,
                    (
                        old(self).tree.nodes()[parent].0,
                        old(self).tree.nodes()[parent].1.push(child),
                        old(self).tree.nodes()[parent].2,
                    ),
                )
            } else {
                old(self).tree.nodes()
            },
    {
        let ghost m0 = self.tree.nodes();
        let _ = self.tree_append(parent, child);
        proof {
            if m0.contains_key(parent) {
                let m1 = m0.insert(child, (Some(parent), m0[child].1, m0[child].2));
                lemma_tree_v_insert(m0, child, (Some(parent), m0[child].1, m0[child].2));
                lemma_tree_v_insert(m1, parent, (m0[parent].0, m0[parent].1.push(child), m0[parent].2));
                assert(m1[parent] == m0[parent]);
            }
        }
    }

    /// Gives the node `n` the type `node_type`.
    pub fn set_node_type(&mut self, n: NodeId, node_type: CssNodeType)
        requires
            old(self).wf(),
            old(self).ps().m.contains_key(n),
        ensures
            final(self).wf(),
            final(self).ps() == sp_set_ty(old(self).ps(), n, type_v(node_type)),
            final(self).ctx() == old(self).ctx(),
            final(self).scanner == old(self).scanner,
            final(self).state() == old(self).state(),
            final(self).last_error() == old(self).last_error(),
            final(self).tree.nodes() == old(self).tree.nodes().insert(
                n,
                (old(self).tree.nodes()[n].0, old(self).tree.nodes()[n].1, final(self).tree.nodes()[n].2),
            ),
            final(self).tree.nodes()[n].2.node_type == node_type,
            final(self).tree.nodes().dom() == old(self).tree.nodes().dom(),
            forall|k: NodeId| #[trigger] final(self).tree.nodes().contains_key(k) ==> final(self).tree.nodes()[k].0
                == old(self).tree.nodes()[k].0,
    {
        let mut v = self.tree_take(n);
        v.node_type = node_type;
        self.tree_put(n, v);
        proof {
            let m0 = old(self).tree.nodes();
            let e = (m0[n].0, m0[n].1, v);
            assert(self.tree.nodes() =~= m0.insert(n, e));
            lemma_tree_v_insert(m0, n, e);
            assert(node_v(v).issues =~= node_v(m0[n].2).issues);
        }
    }

    /// Finishes the node `n`, reporting `error` when there is one; a list of nodes is left
    /// as it is.
    pub fn finish(&mut self, n: NodeId, error: Option<ParseError>)
        requires
            old(self).wf(),
            old(self).ps().m.contains_key(n),
        ensures
            final(self).wf(),
            final(self).ps() == sp_finish(old(self).ps(), n, error),
            final(self).ctx() == old(self).ctx(),
            final(self).scanner == old(self).scanner,
            final(self).state() == old(self).state(),
            final(self).tree.nodes() == old(self).tree.nodes().insert(
                n,
                (old(self).tree.nodes()[n].0, old(self).tree.nodes()[n].1, final(self).tree.nodes()[n].2),
            ),
            final(self).tree.nodes()[n].2.node_type == old(self).tree.nodes()[n].2.node_type,
            final(self).tree.nodes().dom() == old(self).tree.nodes().dom(),
            forall|k: NodeId| #[trigger] final(self).tree.nodes().contains_key(k) ==> final(self).tree.nodes()[k].0
                == old(self).tree.nodes()[k].0,
    {
        let is_list = match css_tree_value(&self.tree.0, n) {
            Some(v) => matches!(v.node_type, CssNodeType::Nodelist),
            None => false,
        };
        proof {
            let t = old(self).tree.nodes()[n].2.node_type;
            assert((type_v(t).kind == CssNodeType::Nodelist.kind_index()) == (t is Nodelist));
        }
        if is_list {
            assert(self.tree.nodes() =~= old(self).tree.nodes().insert(n, old(self).tree.nodes()[n]));
            return;
        }
        if let Some(e) = error {
            self.mark_error(n, e);
        }
        self.finish_length(n);
    }

    /// Sets the length of the node `node_id` to reach the end of the previous token (none
    /// when that ends before the node starts); nothing without a previous token.
    pub fn finish_length(&mut self, node_id: NodeId)
        requires
            old(self).wf(),
            old(self).tree.nodes().contains_key(node_id),
        ensures
            final(self).wf(),
            final(self).state() == old(self).state(),
            final(self).scanner == old(self).scanner,
            final(self).root() == old(self).root(),
            final(self).last_error() == old(self).last_error(),
            final(self).tree.root_id() == old(self).tree.root_id(),
            final(self).tree.nodes() == old(self).tree.nodes().insert(
                node_id,
                (
                    old(self).tree.nodes()[node_id].0,
                    old(self).tree.nodes()[node_id].1,
                    final(self).tree.nodes()[node_id].2,
                ),
            ),
            final(self).tree.nodes()[node_id].2.offset == old(self).tree.nodes()[node_id].2.offset,
            final(self).tree.nodes()[node_id].2.issues == old(self).tree.nodes()[node_id].2.issues,
            final(self).tree.nodes()[node_id].2.node_type == old(self).tree.nodes()[node_id].2.node_type,
            final(self).tree.nodes()[node_id].2.length == finished_length(
                old(self).tree.nodes()[node_id].2.offset as int,
                old(self).tree.nodes()[node_id].2.length as int,
                old(self).state().prev,
            ),
            final(self).ps() == sp_finish_length(old(self).ps(), node_id),
            final(self).ctx() == old(self).ctx(),
    {
        proof {
            self.scanner.stream.lemma_wf_bound();
        }
        match &self.prev_token {
            Some(prev) => {
                let prev_end = prev.offset + prev.length;
                let mut v = self.tree_take(node_id);
                v.length = if prev_end > v.offset {
                    prev_end - v.offset
                } else {
                    0
                };
                self.tree_put(node_id, v);
                proof {
                    let m0 = old(self).tree.nodes();
                    let e = (m0[node_id].0, m0[node_id].1, v);
                    assert(self.tree.nodes() =~= m0.insert(node_id, e));
                    lemma_tree_v_insert(m0, node_id, e);
                    assert(node_v(v).issues =~= node_v(m0[node_id].2).issues);
                }
            },
            None => {
                proof {
                    assert(self.tree.nodes() =~= old(self).tree.nodes().insert(
                        node_id,
                        (
                            old(self).tree.nodes()[node_id].0,
                            old(self).tree.nodes()[node_id].1,
                            old(self).tree.nodes()[node_id].2,
                        ),
                    ));
                    let m0 = old(self).tree.nodes();
                    let tv0 = tree_v(m0);
                    assert(tv0.insert(node_id, tv0[node_id]) =~= tv0);
                }
            },
        }
    }
}

/// The node type of an unknown at-rule, before its name is known.
pub open spec fn is_unknown_at_rule_type(t: CssNodeType) -> bool {
    match t {
        CssNodeType::_BodyDeclaration(b) => b.declarations is None && match b.body_decl_type {
            BodyDeclarationType::UnknownAtRule(u) => u.at_rule_name@.len() == 0,
            _ => false,
        },
        _ => false,
    }
}

/// What parsing an unknown at-rule made of the parser `p`, giving the parser `q` and the
/// node `n`: the at-keyword is taken, and `n` spans it, with one child `c`, the rule's
/// name, spanning it too. Then tokens are read as `at_rule_run` says. Stopping leaves
/// `n` as it is; finishing reports the error found, if any, at the token reached
/// (unless the last error was reported there) and makes `n` reach the end of the last
/// token taken.
pub open spec fn unknown_at_rule_parsed(p: Parser, q: Parser, n: NodeId) -> bool {
    let s = p.src();
    let iw = p.scanner.ignore_whitespace;
    let ic = p.scanner.ignore_comments;
    let t0 = p.state().tok;
    let st1 = consumed(s, iw, ic, p.state());
    let run = at_rule_run(s, iw, ic, st1, 0, 0, 0, 0);
    let m = p.tree.nodes();
    let m2 = q.tree.nodes();
    let nv = m2[n].2;
    let c = m2[n].1[0];
    &&& q.scanner.keeps(p.scanner)
    &&& q.state() == run.1
    &&& q.root() == p.root()
    &&& q.tree.root_id() == p.tree.root_id()
    &&& !m.contains_key(n)
    &&& !m.contains_key(c)
    &&& c != n
    &&& m2.dom() == m.dom().insert(n).insert(c)
    &&& forall|k: NodeId| #[trigger] m.contains_key(k) ==> m2[k] == m[k]
    &&& m2[n].0 is None
    &&& m2[n].1 == seq![c]
    &&& m2[c].0 == Some(n)
    &&& m2[c].1.len() == 0
    &&& m2[c].2.offset == t0.offset
    &&& m2[c].2.length == t0.length
    &&& m2[c].2.issues@.len() == 0
    &&& m2[c].2.node_type == CssNodeType::Undefined
    &&& nv.offset == t0.offset
    &&& is_unknown_at_rule_type(nv.node_type)
    &&& match run.0 {
        AtRuleEnd::Stop => nv.length == t0.length && nv.issues@.len() == 0 && q.last_error()
            == p.last_error(),
        AtRuleEnd::Finish(err) => {
            let reported = err is Some && p.last_error() != Some(run.1.tok);
            &&& nv.length == finished_length(t0.offset, t0.length, run.1.prev)
            &&& reported ==> {
                &&& nv.issues@.len() == 1
                &&& marker_at(nv.issues@[0], err->0, run.1.tok)
                &&& q.last_error() == Some(run.1.tok)
            }
            &&& !reported ==> nv.issues@.len() == 0 && q.last_error() == p.last_error()
        },
    }
}

/// The length a node at `offset` of length `length` gets when it is finished after the
/// token `prev`: up to the end of `prev`, none when that ends before the node starts.
pub open spec fn finished_length(offset: int, length: int, prev: Option<TokV>) -> int {
    match prev {
        Some(p) => if p.offset + p.length > offset {
            p.offset + p.length - offset
        } else {
            0
        },
        None => length,
    }
}

/// The token types of a slice, when given.
pub open spec fn opt_types(types: Option<&[TokenType]>) -> Option<Seq<TokenType>> {
    match types {
        Some(ts) => Some(ts@),
        None => None,
    }
}

/// A copy of a token, when there is one.
pub fn copy_opt_token(t: &Option<Token>) -> (r: Option<Token>)
    ensures
        r matches Some(x) ==> t matches Some(y) && tv(x) == tv(*y),
        r is None <==> t is None,
{
    match t {
        Some(x) => Some(copy_token(x)),
        None => None,
    }
}

/// A copy of the reference types.
pub fn copy_reference_types(rt: &[ReferenceType]) -> (r: Vec<ReferenceType>)
    ensures
        r@ == rt@,
{
    let mut v: Vec<ReferenceType> = Vec::new();
    let mut i: usize = 0;
    while i < rt.len()
        invariant
            i <= rt@.len(),
            v@ == rt@.take(i as int),
        decreases rt@.len() - i,
    {
        v.push(rt[i]);
        assert(rt@.take(i + 1) =~= rt@.take(i as int).push(rt@[i as int]));
        i += 1;
    }
    assert(rt@.take(rt@.len() as int) =~= rt@);
    v
}

/// Whether `text` starts with `--`.
pub fn starts_with_two_dashes(text: &str) -> (r: bool)
    ensures
        r == starts_with_dashes(text@),
{
    let v = crate::text::collect_chars(text);
    v.len() >= 2 && v[0] == '-' && v[1] == '-'
}

/// Whether `text` counts as a color (see `hex_color_text`).
pub fn is_hex_color_text(text: &str) -> (r: bool)
    ensures
        r == hex_color_text(text@),
{
    let v = crate::text::collect_chars(text);
    let ghost t = v@;
    if v.len() >= 4 && v[0] == '#' && crate::text::exec_is_hex(v[1]) && crate::text::exec_is_hex(v[2])
        && crate::text::exec_is_hex(v[3]) {
        return true;
    }
    let mut run: usize = 0;
    let mut i: usize = 0;
    while i < v.len()
        invariant
            t == v@,
            t == text@,
            i <= v@.len(),
            run <= i,
            run < 4,
            hex_run_at(t, i - run, run as int),
            i - run > 0 ==> !is_hex(t[i - run - 1]),
            forall|j: int| #![trigger hex_run_at(t, j, 4)] j + 4 <= i ==> !hex_run_at(t, j, 4),
        decreases v@.len() - i,
    {
        if crate::text::exec_is_hex(v[i]) {
            run = run + 1;
            if run == 4 {
                assert(hex_run_at(t, i + 1 - 4, 4));
                return true;
            }
        } else {
            run = 0;
        }
        i = i + 1;
        proof {
            assert forall|j: int| #![trigger hex_run_at(t, j, 4)] j + 4 <= i implies !hex_run_at(t, j, 4) by {
                if j + 4 == i && j >= 0 {
                    if !is_hex(t[i - 1]) {
                        assert(!is_hex(t[j + 3]));
                    } else {
                        assert(!is_hex(t[i - run - 1]));
                    }
                }
            }
        }
    }
    proof {
        if t.len() >= 1 && t[0] == '#' && hex_run_at(t, 1, 3) {
            assert(is_hex(t[1]) && is_hex(t[2]) && is_hex(t[3]));
        }
        assert forall|j: int| !#[trigger] hex_run_at(t, j, 4) by {}
    }
    false
}

/// Whether `t` is one of `types`.
pub fn contains_token_type(types: &[TokenType], t: TokenType) -> (r: bool)
    ensures
        r == types@.contains(t),
{
    let mut i: usize = 0;
    while i < types.len()
        invariant
            i <= types@.len(),
            forall|j: int| 0 <= j < i ==> types@[j] != t,
        decreases types@.len() - i,
    {
        if token_type_eq(&types[i], &t) {
            return true;
        }
        i += 1;
    }
    false
}

/// Two token types are the same.
pub fn token_type_eq(a: &TokenType, b: &TokenType) -> (r: bool)
    ensures
        r == (*a == *b),
{
    *a == *b
}

/// Two tokens have the same type, text, offset and length.
pub fn same_token(a: &Token, b: &Token) -> (r: bool)
    ensures
        r == (tv(*a) == tv(*b)),
{
    token_type_eq(&a.token_type, &b.token_type) && a.text == b.text && a.offset == b.offset
        && a.length == b.length
}

/// A copy of a token.
pub fn copy_token(t: &Token) -> (r: Token)
    ensures
        tv(r) == tv(*t),
{
    Token { token_type: t.token_type, text: t.text.clone(), offset: t.offset, length: t.length }
}


/// Every token that carries a number, with or without a unit (a number, percentage,
/// length, `em`, `ex`, angle, time, frequency, resolution, other dimension or container
/// query length), is parsed as a numeric value spanning the token, which is taken; no
/// other token is.
pub proof fn law_numbers_are_numeric_values(c: Ctx, ps: PS)
    ensures
        ({
            let tt = ps.st.tok.tt;
            let number = tt == TokenType::Num || tt == TokenType::Percentage || tt == TokenType::Length || tt
                == TokenType::EMS || tt == TokenType::EXS || tt == TokenType::Angle || tt == TokenType::Time || tt
                == TokenType::Freq || tt == TokenType::Resolution || tt == TokenType::Dimension || tt
                == TokenType::ContainerQueryLength;
            &&& number ==> sp_numeric(c, ps) == {
                let (n, p1) = sp_orphan(ps, type_v(CssNodeType::NumericValue));
                (Some(n), sp_finish_length(sp_consume(c, p1), n))
            }
            &&& !number ==> sp_numeric(c, ps) == (None::<NodeId>, ps)
        }),
{
}


/// The operators of binary expressions are `/`, `*`, `+`, `-`, `=` and the attribute
/// operators `|=`, `~=`, `*=`, `^=` and `$=`: each is parsed as an operator node spanning
/// the token, which is taken; no other token is.
pub proof fn law_operators(c: Ctx, ps: PS)
    ensures
        ({
            let t = ps.st.tok;
            let op = is_delim(t, '/') || is_delim(t, '*') || is_delim(t, '+') || is_delim(t, '-') || is_delim(t, '=')
                || t.tt == TokenType::Dashmatch || t.tt == TokenType::Includes || t.tt == TokenType::SubstringOperator
                || t.tt == TokenType::PrefixOperator || t.tt == TokenType::SuffixOperator;
            &&& op ==> sp_operator(c, ps) == {
                let (n, p1) = sp_orphan(ps, type_v(CssNodeType::Operator));
                (Some(n), sp_finish_length(sp_consume(c, p1), n))
            }
            &&& !op ==> sp_operator(c, ps) == (None::<NodeId>, ps)
        }),
{
}

/// A unary operator is a `+` or a `-` delimiter, taken into a node of its own; nothing
/// else is one.
pub proof fn law_unary_operators(c: Ctx, ps: PS)
    ensures
        ({
            let t = ps.st.tok;
            let op = t.tt == TokenType::Delim && (t.text == seq!['+'] || t.text == seq!['-']);
            &&& op ==> sp_unary_operator(c, ps) == {
                let (n, p1) = sp_orphan(ps, type_v(CssNodeType::Undefined));
                (Some(n), sp_finish_length(sp_consume(c, p1), n))
            }
            &&& !op ==> sp_unary_operator(c, ps) == (None::<NodeId>, ps)
        }),
{
}

/// Strings, well formed or not, are parsed as string literals spanning the token; no
/// other token is.
pub proof fn law_strings(c: Ctx, ps: PS)
    ensures
        ({
            let tt = ps.st.tok.tt;
            let string = tt == TokenType::String || tt == TokenType::BadString;
            &&& string ==> sp_string_literal(c, ps) == {
                let (n, p1) = sp_orphan(ps, type_v(CssNodeType::StringLiteral));
                (Some(n), sp_finish_length(sp_consume(c, p1), n))
            }
            &&& !string ==> sp_string_literal(c, ps) == (None::<NodeId>, ps)
        }),
{
}

/// Identifiers are parsed as identifier nodes, which name a custom property exactly
/// when they start with `--`; no other token is.
pub proof fn law_identifiers(c: Ctx, ps: PS, refs: Option<Seq<ReferenceType>>)
    ensures
        ({
            let t = ps.st.tok;
            let custom = t.text.len() >= 2 && t.text[0] == '-' && t.text[1] == '-';
            &&& t.tt == TokenType::Ident ==> sp_ident(c, ps, refs) == {
                let (n, p1) = sp_orphan(ps, ident_ty(refs, custom));
                (Some(n), sp_finish_length(sp_consume(c, p1), n))
            }
            &&& t.tt != TokenType::Ident ==> sp_ident(c, ps, refs) == (None::<NodeId>, ps)
        }),
{
    let t = ps.st.tok;
    if t.text.len() >= 2 && t.text[0] == '-' && t.text[1] == '-' {
        assert(t.text.subrange(0, 2) =~= seq!['-', '-']);
    }
}


/// A hash token of `#` followed by three, four, six or eight hex digits is parsed as a
/// hex colour spanning the token; a token other than a hash never is.
pub proof fn law_hex_colors(c: Ctx, ps: PS)
    ensures
        ({
            let t = ps.st.tok;
            &&& t.tt == TokenType::Hash && t.text.len() >= 1 && t.text[0] == '#' && (forall|i: int|
                1 <= i < t.text.len() ==> is_hex(#[trigger] t.text[i])) && (t.text.len() == 4 || t.text.len() == 5
                || t.text.len() == 7 || t.text.len() == 9) ==> sp_hex_color(c, ps) == {
                let (n, p1) = sp_orphan(ps, type_v(CssNodeType::HexColorValue));
                (Some(n), sp_finish_length(sp_consume(c, p1), n))
            }
            &&& t.tt != TokenType::Hash ==> sp_hex_color(c, ps) == (None::<NodeId>, ps)
        }),
{
    let t = ps.st.tok.text;
    if t.len() >= 4 && t[0] == '#' && (forall|i: int| 1 <= i < t.len() ==> is_hex(#[trigger] t[i])) {
        assert forall|k: int| 1 <= k < 1 + 3 implies is_hex(#[trigger] t[k]) by {}
        assert(hex_run_at(t, 1, 3));
    }
}

} // verus!
