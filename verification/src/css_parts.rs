//! Parts of the grammar stated as functions of what the parser holds: `url(...)`
//! literals, function names, element names and namespace prefixes, combinators,
//! ratios, the names and range operators of media features, media and `@charset`; and
//! parsing a text with one of them.
//!
//! Each parse function here is stated as a function from what the parser holds before
//! to what it holds after, together with the node it gives back, so that the failed
//! alternatives, the nodes they leave behind without a parent, and the errors reported
//! are all pinned down.
use vstd::prelude::*;
use crate::css_node_types::{CssNodeType, Identifier, ReferenceType};
use crate::css_nodes::{CssNodeTree, ParseError};
use crate::css_parser::{
    gave, grew, same_on, started, tree_v, sp_hex_color, sp_named_line, sp_operator, sp_string_literal,
    sp_unary_operator, sp_unicode_range, ident_ty, is_delim, moved, is_ident_text, kept, left, lemma_consumed, readable, sp_accept, sp_accept_delim,
    sp_append, sp_append_maybe, sp_consume, sp_finish, sp_ident, sp_numeric, sp_orphan, sp_set_ty, type_v, Ctx,
    ParseState, Parser, TokV, PS,
};
use crate::css_scanner::TokenType;
use crate::scan_spec::{
    no_dangling_escape, lemma_read_loop_bounds, lemma_read_loop_defined, lemma_read_loop_taken, lemma_scan_offset, unquoted, LoopKind,
    LoopOut,
};
use crate::text::{bp, cidx, lemma_bp_full, lemma_bp_mono, lemma_cidx_bp, lemma_cidx_some};
use ego_tree::NodeId;

verus! {

/// Text was skipped between the previous token and the current one.
pub open spec fn has_ws(st: ParseState) -> bool {
    st.prev matches Some(p) && p.offset + p.length != st.tok.offset
}

/// Going back to the state `st` and the last error `le` saved earlier; the tree stays.
pub open spec fn sp_restore(ps: PS, st: ParseState, le: Option<TokV>) -> PS {
    PS { st, le, ..ps }
}

/// The error to report when a closing token is missing.
pub open spec fn unless(closed: bool, e: ParseError) -> Option<ParseError> {
    if closed {
        None
    } else {
        Some(e)
    }
}

/// The ASCII capital of each letter of `url-prefix`.
pub open spec fn capital(t: char) -> char {
    if t == 'u' {
        'U'
    } else if t == 'r' {
        'R'
    } else if t == 'l' {
        'L'
    } else if t == 'p' {
        'P'
    } else if t == 'e' {
        'E'
    } else if t == 'f' {
        'F'
    } else if t == 'i' {
        'I'
    } else if t == 'x' {
        'X'
    } else {
        t
    }
}

/// `c` is `t`, a character of `url-prefix`, up to ASCII case.
pub open spec fn eq_ci(c: char, t: char) -> bool {
    c == t || c == capital(t)
}

/// The name of a `url(...)` literal: `url` or `url-prefix`, in any ASCII case.
pub open spec fn is_url_name(t: Seq<char>) -> bool {
    let w = seq!['u', 'r', 'l', '-', 'p', 'r', 'e', 'f', 'i', 'x'];
    (t.len() == 3 || t.len() == 10) && forall|i: int| 0 <= i < t.len() ==> eq_ci(#[trigger] t[i], w[i])
}

/// The dotted names after `progid:`: while an identifier and a `.` are taken.
pub open spec fn sp_progid_rest(c: Ctx, ps: PS) -> PS
    decreases left(c.s, ps.st),
{
    let (a, p1) = sp_accept(c, ps, TokenType::Ident);
    if !a {
        p1
    } else {
        let (d, p2) = sp_accept_delim(c, p1, seq!['.']);
        if d && readable(c.s, p2.st) && left(c.s, p2.st) < left(c.s, ps.st) {
            sp_progid_rest(c, p2)
        } else {
            p2
        }
    }
}

/// The name of a function: an identifier referring to a function; after `progid`, a
/// `:` and dotted names are taken too.
pub open spec fn sp_function_identifier(c: Ctx, ps: PS) -> (Option<NodeId>, PS) {
    if ps.st.tok.tt != TokenType::Ident {
        (None, ps)
    } else {
        let (n, p1) = sp_orphan(ps, ident_ty(Some(seq![ReferenceType::Function]), false));
        if is_ident_text(p1.st.tok, "progid"@) {
            let (colon, p2) = sp_accept(c, sp_consume(c, p1), TokenType::Colon);
            let p3 = if colon {
                sp_progid_rest(c, p2)
            } else {
                p2
            };
            (Some(n), sp_finish(p3, n, None))
        } else {
            (Some(n), sp_finish(sp_consume(c, p1), n, None))
        }
    }
}

/// Reading an unquoted string from the start of the current token: when anything is
/// read, it becomes the current token and is taken.
pub open spec fn sp_accept_unquoted(c: Ctx, ps: PS) -> (bool, PS) {
    let i = cidx(c.s, ps.st.tok.offset)->0;
    match unquoted(c.s, i) {
        LoopOut::Done(e, text, true) => {
            let t = TokV {
                tt: TokenType::UnquotedString,
                text,
                offset: ps.st.tok.offset,
                length: bp(c.s, e) - ps.st.tok.offset,
            };
            (true, sp_consume(c, PS { st: ParseState { tok: t, prev: ps.st.prev, pos: bp(c.s, e) }, ..ps }))
        },
        _ => (false, ps),
    }
}

/// The argument of a `url(...)`: a string, a bad string or an unquoted string.
pub open spec fn sp_url_argument(c: Ctx, ps: PS) -> (Option<NodeId>, PS) {
    let (n, p1) = sp_orphan(ps, type_v(CssNodeType::Undefined));
    let (a, p2) = sp_accept(c, p1, TokenType::String);
    let (a, p3) = if a {
        (a, p2)
    } else {
        sp_accept(c, p2, TokenType::BadString)
    };
    let (a, p4) = if a {
        (a, p3)
    } else {
        sp_accept_unquoted(c, p3)
    };
    if a {
        (Some(n), sp_finish(p4, n, None))
    } else {
        (None, p4)
    }
}

/// A `url(...)` literal: the name touching `(`, an optional argument, then `)`, whose
/// absence is reported. Without the `(` the parser goes back (the node made stays).
pub open spec fn sp_uri_literal(c: Ctx, ps: PS) -> (Option<NodeId>, PS) {
    if !(ps.st.tok.tt == TokenType::Ident && is_url_name(ps.st.tok.text)) {
        (None, ps)
    } else {
        let (n, p1) = sp_orphan(ps, type_v(CssNodeType::URILiteral));
        let p2 = sp_consume(c, p1);
        if has_ws(p2.st) || p2.st.tok.tt != TokenType::ParenthesisL {
            (None, sp_restore(p2, ps.st, ps.le))
        } else {
            let (a, p3) = sp_url_argument(c, sp_consume(c, p2));
            let (closed, p4) = sp_accept(c, sp_append_maybe(p3, n, a), TokenType::ParenthesisR);
            (Some(n), sp_finish(p4, n, unless(closed, ParseError::RightParenthesisExpected)))
        }
    }
}

/// A namespace prefix: an optional identifier (a child) or `*`, then `|`, which must
/// be there; without it the parser goes back (the node made stays).
pub open spec fn sp_namespace_prefix(c: Ctx, ps: PS) -> (Option<NodeId>, PS) {
    let (n, p1) = sp_orphan(ps, type_v(CssNodeType::NamespacePrefix));
    let (id, p2) = sp_ident(c, p1, None);
    let p3 = match id {
        Some(id) => sp_append(p2, n, id),
        None => sp_accept_delim(c, p2, seq!['*']).1,
    };
    let (bar, p4) = sp_accept_delim(c, p3, seq!['|']);
    if bar {
        (Some(n), sp_finish(p4, n, None))
    } else {
        (None, sp_restore(p4, ps.st, ps.le))
    }
}

/// An element name: an optional namespace prefix (a child), then an identifier (a
/// child) or `*`, one of which must be there; without it the parser goes back (the
/// nodes made stay).
pub open spec fn sp_element_name(c: Ctx, ps: PS) -> (Option<NodeId>, PS) {
    let (n, p1) = sp_orphan(ps, type_v(CssNodeType::ElementNameSelector));
    let (pre, p2) = sp_namespace_prefix(c, p1);
    let p3 = sp_append_maybe(p2, n, pre);
    let (id, p4) = sp_ident(c, p3, None);
    let (named, p5) = match id {
        Some(id) => (true, sp_append(p4, n, id)),
        None => sp_accept_delim(c, p4, seq!['*']),
    };
    if named {
        (Some(n), sp_finish(p5, n, None))
    } else {
        (None, sp_restore(p5, ps.st, ps.le))
    }
}

/// A ratio: a number, `/`, then a number, whose absence is reported. Without the `/`
/// the parser goes back (the nodes made stay); without the first number it stays after
/// the failed attempt. The numbers are not made children of the ratio.
pub open spec fn sp_ratio(c: Ctx, ps: PS) -> (Option<NodeId>, PS) {
    let (n, p1) = sp_orphan(ps, type_v(CssNodeType::RatioValue));
    let (a, p2) = sp_numeric(c, p1);
    if a is None {
        (None, p2)
    } else {
        let (slash, p3) = sp_accept_delim(c, p2, seq!['/']);
        if !slash {
            (None, sp_restore(p3, ps.st, ps.le))
        } else {
            let (b, p4) = sp_numeric(c, p3);
            (Some(n), sp_finish(p4, n, if b is None { Some(ParseError::NumberExpected) } else { None }))
        }
    }
}

/// A range operator of a media feature: `<` or `>`, followed by `=` when it touches
/// it, or `=` alone.
pub open spec fn sp_range_operator(c: Ctx, ps: PS) -> (bool, PS) {
    let (lt, p1) = sp_accept_delim(c, ps, seq!['<']);
    let (cmp_op, p2) = if lt {
        (true, p1)
    } else {
        sp_accept_delim(c, p1, seq!['>'])
    };
    if cmp_op {
        (
            true,
            if has_ws(p2.st) {
                p2
            } else {
                sp_accept_delim(c, p2, seq!['=']).1
            },
        )
    } else {
        sp_accept_delim(c, p2, seq!['='])
    }
}

/// A combinator between selectors: `>` (or `>>>` written without spaces), `+`, `~`, or
/// `/deep/` written without spaces. After a `/` not followed by `deep/` the `/` stays
/// taken and nothing is given back.
pub open spec fn sp_combinator(c: Ctx, ps: PS) -> (Option<NodeId>, PS) {
    let t = ps.st.tok;
    if is_delim(t, '>') {
        let (n, p1) = sp_orphan(ps, type_v(CssNodeType::Undefined));
        let p2 = sp_consume(c, p1);
        let (a, p3) = if has_ws(p2.st) {
            (false, p2)
        } else {
            sp_accept_delim(c, p2, seq!['>'])
        };
        let (b, p4) = if a && !has_ws(p3.st) {
            sp_accept_delim(c, p3, seq!['>'])
        } else {
            (false, p3)
        };
        if b {
            (Some(n), sp_finish(sp_set_ty(p4, n, type_v(CssNodeType::SelectorCombinatorShadowPiercingDescendant)), n, None))
        } else {
            let p5 = if a {
                sp_restore(p4, p2.st, p2.le)
            } else {
                p4
            };
            (Some(n), sp_finish(sp_set_ty(p5, n, type_v(CssNodeType::SelectorCombinatorParent)), n, None))
        }
    } else if is_delim(t, '+') || is_delim(t, '~') {
        let ty = if is_delim(t, '+') {
            CssNodeType::SelectorCombinatorSibling
        } else {
            CssNodeType::SelectorCombinatorAllSiblings
        };
        let (n, p1) = sp_orphan(ps, type_v(ty));
        (Some(n), sp_finish(sp_consume(c, p1), n, None))
    } else if is_delim(t, '/') {
        let (n, p1) = sp_orphan(ps, type_v(CssNodeType::SelectorCombinatorShadowPiercingDescendant));
        let p2 = sp_consume(c, p1);
        let deep = !has_ws(p2.st) && is_ident_text(p2.st.tok, "deep"@);
        let p3 = if deep {
            sp_consume(c, p2)
        } else {
            p2
        };
        let (slash, p4) = if deep && !has_ws(p3.st) {
            sp_accept_delim(c, p3, seq!['/'])
        } else {
            (false, p3)
        };
        if slash {
            (Some(n), sp_finish(p4, n, None))
        } else {
            (None, sp_restore(p4, p2.st, p2.le))
        }
    } else {
        (None, ps)
    }
}

/// The parse functions that `Parser::parse_fn` can parse a text with.
pub enum ParseFn {
    Ident,
    Operator,
    UnaryOperator,
    Numeric,
    StringLiteral,
    HexColor,
    NamedLine,
    UnicodeRange,
    UriLiteral,
    FunctionIdentifier,
    NamespacePrefix,
    ElementName,
    Ratio,
    Combinator,
    MediaFeatureName,
}

/// What the parse function `f` does from `ps`.
pub open spec fn sp_run(c: Ctx, ps: PS, f: ParseFn) -> (Option<NodeId>, PS) {
    match f {
        ParseFn::Ident => sp_ident(c, ps, None),
        ParseFn::Operator => sp_operator(c, ps),
        ParseFn::UnaryOperator => sp_unary_operator(c, ps),
        ParseFn::Numeric => sp_numeric(c, ps),
        ParseFn::StringLiteral => sp_string_literal(c, ps),
        ParseFn::HexColor => sp_hex_color(c, ps),
        ParseFn::NamedLine => sp_named_line(c, ps),
        ParseFn::UnicodeRange => sp_unicode_range(c, ps),
        ParseFn::UriLiteral => sp_uri_literal(c, ps),
        ParseFn::FunctionIdentifier => sp_function_identifier(c, ps),
        ParseFn::NamespacePrefix => sp_namespace_prefix(c, ps),
        ParseFn::ElementName => sp_element_name(c, ps),
        ParseFn::Ratio => sp_ratio(c, ps),
        ParseFn::Combinator => sp_combinator(c, ps),
        ParseFn::MediaFeatureName => sp_ident(c, ps, None),
    }
}

/// `@charset`: the string after it and the `;` must follow; each missing one is
/// reported (the first at most once at a token).
pub open spec fn sp_charset(c: Ctx, ps: PS) -> (Option<NodeId>, PS) {
    if ps.st.tok.tt != TokenType::Charset {
        (None, ps)
    } else {
        let (n, p1) = sp_orphan(ps, type_v(CssNodeType::Undefined));
        let (s, p2) = sp_accept(c, sp_consume(c, p1), TokenType::String);
        let p3 = if s {
            p2
        } else {
            sp_finish(p2, n, Some(ParseError::IdentifierExpected))
        };
        let (semi, p4) = sp_accept(c, p3, TokenType::SemiColon);
        let p5 = if semi {
            p4
        } else {
            sp_finish(p4, n, Some(ParseError::SemiColonExpected))
        };
        (Some(n), sp_finish(p5, n, None))
    }
}

/// A medium: an identifier under an undefined node.
pub open spec fn sp_medium(c: Ctx, ps: PS) -> (Option<NodeId>, PS) {
    let (n, p1) = sp_orphan(ps, type_v(CssNodeType::Undefined));
    let (id, p2) = sp_ident(c, p1, None);
    match id {
        None => (None, p2),
        Some(id) => (Some(n), sp_finish(sp_append(p2, n, id), n, None)),
    }
}

/// Whether `text` names a `url(...)` literal.
pub fn is_url_name_text(text: &str) -> (r: bool)
    ensures
        r == is_url_name(text@),
{
    let t = crate::text::collect_chars(text);
    let w = vec!['u', 'r', 'l', '-', 'p', 'r', 'e', 'f', 'i', 'x'];
    assert(w@ =~= seq!['u', 'r', 'l', '-', 'p', 'r', 'e', 'f', 'i', 'x']);
    if t.len() != 3 && t.len() != 10 {
        return false;
    }
    let mut i: usize = 0;
    while i < t.len()
        invariant
            t@ == text@,
            t.len() == 3 || t.len() == 10,
            w@ == seq!['u', 'r', 'l', '-', 'p', 'r', 'e', 'f', 'i', 'x'],
            i <= t.len(),
            forall|k: int| 0 <= k < i ==> eq_ci(#[trigger] t@[k], w@[k]),
        decreases t.len() - i,
    {
        let c = t[i];
        let d = w[i];
        let up = if d == 'u' {
            'U'
        } else if d == 'r' {
            'R'
        } else if d == 'l' {
            'L'
        } else if d == 'p' {
            'P'
        } else if d == 'e' {
            'E'
        } else if d == 'f' {
            'F'
        } else if d == 'i' {
            'I'
        } else if d == 'x' {
            'X'
        } else {
            d
        };
        let ok = c == d || c == up;
        assert(ok == eq_ci(t@[i as int], w@[i as int]));
        if !ok {
            return false;
        }
        i = i + 1;
    }
    true
}

impl Parser {
    /// Reads an unquoted string from the start of the current token and takes it, when
    /// anything is read there; otherwise the parser stays as it was.
    #[verifier::spinoff_prover]
    #[verifier::rlimit(40)]
    pub fn accept_unquoted_string(&mut self) -> (r: bool)
        requires
            old(self).wf(),
            cidx(old(self).src(), old(self).state().tok.offset) is Some,
        ensures
            final(self).wf(),
            final(self).ctx() == old(self).ctx(),
            (r, final(self).ps()) == sp_accept_unquoted(old(self).ctx(), old(self).ps()),
            final(self).tree == old(self).tree,
            r ==> final(self).state().pos >= old(self).state().tok.offset,
    {
        let ghost s = self.src();
        let ghost i = cidx(s, self.state().tok.offset)->0;
        proof {
            lemma_cidx_some(s, self.state().tok.offset);
            lemma_read_loop_defined(s, i, LoopKind::Unquoted);
            lemma_read_loop_bounds(s, i, LoopKind::Unquoted);
            lemma_read_loop_taken(s, i, LoopKind::Unquoted);
            lemma_bp_full(s);
        }
        let pos = self.scanner.get_position();
        let offset = self.token.offset;
        self.scanner.set_position(offset);
        match self.scanner.scan_unquoted_string() {
            Some(t) => {
                proof {
                    let e = unquoted(s, i)->Done_0;
                    lemma_cidx_bp(s, e);
                    lemma_bp_mono(s, i, e);
                    lemma_bp_mono(s, e, s.len() as int);
                }
                self.token = t;
                self.consume_token();
                true
            },
            None => {
                self.scanner.set_position(pos);
                false
            },
        }
    }

    /// The argument of a `url(...)`: a string, a bad string or an unquoted string.
    #[verifier::spinoff_prover]
    #[verifier::rlimit(40)]
    pub fn parse_url_argument(&mut self) -> (r: Option<NodeId>)
        requires
            old(self).wf(),
            cidx(old(self).src(), old(self).state().tok.offset) is Some,
            old(self).state().tok.offset <= old(self).state().pos,
        ensures
            final(self).wf(),
            final(self).ctx() == old(self).ctx(),
            (r, final(self).ps()) == sp_url_argument(old(self).ctx(), old(self).ps()),
            old(self).ps().m.dom().subset_of(final(self).ps().m.dom()),
            final(self).state().pos >= old(self).state().tok.offset,
            r matches Some(n) ==> !old(self).ps().m.contains_key(n) && final(self).ps().m.contains_key(n)
                && final(self).ps().m[n].0 is None,
            same_on(old(self).tree.nodes(), final(self).tree.nodes()),
    {
        let ghost c = self.ctx();
        let ghost t0 = self.tree.nodes();
        proof {
            lemma_consumed(c.s, c.iw, c.ic, self.state());
        }
        let node = self.orphan(CssNodeType::Undefined);
        if !self.accept(TokenType::String) && !self.accept(TokenType::BadString) && !self.accept_unquoted_string() {
            return None;
        }
        self.finish(node, None);
        assert forall|k: NodeId| #[trigger] t0.contains_key(k) implies self.tree.nodes().contains_key(k)
            && self.tree.nodes()[k] == t0[k] by {
            assert(k != node);
        }
        Some(node)
    }

    /// A `url(...)` literal, when the current token is `url` or `url-prefix` touching a
    /// `(`: an optional argument, then `)`, whose absence is reported.
    #[verifier::spinoff_prover]
    #[verifier::rlimit(40)]
    pub fn parse_uri_literal(&mut self) -> (r: Option<NodeId>)
        requires
            old(self).wf(),
        ensures
            final(self).wf(),
            final(self).ctx() == old(self).ctx(),
            (r, final(self).ps()) == sp_uri_literal(old(self).ctx(), old(self).ps()),
            kept(old(self).ctx(), old(self).ps(), final(self).ps(), r),
    {
        if !(self.peek(TokenType::Ident) && is_url_name_text(self.token.text.as_str())) {
            return None;
        }
        let ghost c = self.ctx();
        let ghost st0 = self.state();
        let mark = self.mark();
        let node = self.orphan(CssNodeType::URILiteral);
        self.consume_token();
        let ghost st1 = self.state();
        if self.has_whitespace() || !self.peek(TokenType::ParenthesisL) {
            self.restore_at_mark(mark);
            return None;
        }
        proof {
            lemma_consumed(c.s, c.iw, c.ic, st0);
            lemma_consumed(c.s, c.iw, c.ic, st1);
            lemma_scan_offset(c.s, c.iw, c.ic, st1.pos);
        }
        self.consume_token();
        let a = self.parse_url_argument();
        match a {
            Some(a) => {
                self.append_node(node, a);
            },
            None => {},
        }
        let closed = self.accept(TokenType::ParenthesisR);
        self.finish(node, if closed { None } else { Some(ParseError::RightParenthesisExpected) });
        Some(node)
    }

    /// Takes identifiers each followed by a `.`, as long as they come.
    #[verifier::spinoff_prover]
    #[verifier::rlimit(40)]
    fn take_progid_names(&mut self)
        requires
            old(self).wf(),
        ensures
            final(self).wf(),
            final(self).ctx() == old(self).ctx(),
            final(self).ps() == sp_progid_rest(old(self).ctx(), old(self).ps()),
            final(self).ps().m == old(self).ps().m,
            final(self).tree == old(self).tree,
            left(final(self).src(), final(self).state()) <= left(old(self).src(), old(self).state()),
        decreases left(old(self).src(), old(self).state()),
    {
        let ghost c = self.ctx();
        let ghost pb = self.ps();
        if !self.accept(TokenType::Ident) {
            return;
        }
        let ghost p1 = self.ps();
        proof {
            reveal_strlit(".");
            assert("."@ =~= seq!['.']);
        }
        if !self.accept_delim(".") {
            return;
        }
        assert(left(c.s, self.state()) < left(c.s, pb.st));
        self.take_progid_names();
    }

    /// The name of a function: an identifier referring to a function. After `progid`,
    /// a `:` and dotted names are taken too.
    #[verifier::spinoff_prover]
    #[verifier::rlimit(100)]
    pub fn parse_function_identifier(&mut self) -> (r: Option<NodeId>)
        requires
            old(self).wf(),
        ensures
            final(self).wf(),
            grew(*old(self), *final(self)),
            gave(*old(self), *final(self), r),
            r is Some ==> moved(*old(self), *final(self)),
            final(self).ctx() == old(self).ctx(),
            (r, final(self).ps()) == sp_function_identifier(old(self).ctx(), old(self).ps()),
            kept(old(self).ctx(), old(self).ps(), final(self).ps(), r),
    {
        if !self.peek(TokenType::Ident) {
            return None;
        }
        let ghost c = self.ctx();
        let ghost p0 = self.ps();
        let ghost t0 = self.tree.nodes();
        let refs = vec![ReferenceType::Function];
        assert(refs@ =~= seq![ReferenceType::Function]);
        let nt = CssNodeType::Identifier(Identifier { reference_types: Some(refs), is_custom_property: false });
        assert(type_v(nt) == ident_ty(Some(seq![ReferenceType::Function]), false));
        let node = self.orphan(nt);
        let ghost p1 = self.ps();
        assert(sp_orphan(p0, ident_ty(Some(seq![ReferenceType::Function]), false)) == (node, p1));
        if self.accept_ident("progid") {
            let ghost p2 = self.ps();
            assert(p2 == sp_consume(c, p1));
            if self.accept(TokenType::Colon) {
                self.take_progid_names();
            }
            let ghost p3 = self.ps();
            assert(p3.m.dom() == p1.m.dom());
            assert(p3.m[node] == p1.m[node]);
            assert(left(c.s, p3.st) < left(c.s, p0.st));
            self.finish(node, None);
            assert(self.ps().m.dom() =~= p3.m.dom());
            assert forall|k: NodeId| #[trigger] t0.contains_key(k) implies self.tree.nodes().contains_key(k)
            && self.tree.nodes()[k] == t0[k] by {
            assert(k != node);
        }
            return Some(node);
        }
        self.consume_token();
        let ghost p3 = self.ps();
        self.finish(node, None);
        assert(self.ps().m.dom() =~= p3.m.dom());
        assert forall|k: NodeId| #[trigger] t0.contains_key(k) implies self.tree.nodes().contains_key(k)
            && self.tree.nodes()[k] == t0[k] by {
            assert(k != node);
        }
        Some(node)
    }


    /// A namespace prefix: an optional identifier or `*`, then `|`, which must be there;
    /// without it the parser goes back to where it was.
    #[verifier::spinoff_prover]
    #[verifier::rlimit(60)]
    pub fn parse_namespace_prefix(&mut self) -> (r: Option<NodeId>)
        requires
            old(self).wf(),
        ensures
            final(self).wf(),
            grew(*old(self), *final(self)),
            gave(*old(self), *final(self), r),
            r is Some ==> moved(*old(self), *final(self)),
            final(self).ctx() == old(self).ctx(),
            (r, final(self).ps()) == sp_namespace_prefix(old(self).ctx(), old(self).ps()),
            kept(old(self).ctx(), old(self).ps(), final(self).ps(), r),
            forall|k: NodeId| #[trigger] old(self).ps().m.contains_key(k) ==> final(self).ps().m[k] == old(self).ps().m[k],
    {
        let ghost c = self.ctx();
        let ghost p0 = self.ps();
        proof {
            reveal_strlit("*");
            reveal_strlit("|");
            assert("*"@ =~= seq!['*']);
            assert("|"@ =~= seq!['|']);
        }
        let mark = self.mark();
        let node = self.orphan(CssNodeType::NamespacePrefix);
        let ghost p1 = self.ps();
        match self.parse_ident(None) {
            Some(id) => {
                self.append_node(node, id);
            },
            None => {
                let _ = self.accept_delim("*");
            },
        }
        let ghost p3 = self.ps();
        assert forall|k: NodeId| #[trigger] p0.m.contains_key(k) implies p3.m[k] == p0.m[k] by {
            assert(k != node);
        }
        if !self.accept_delim("|") {
            self.restore_at_mark(mark);
            return None;
        }
        self.finish(node, None);
        assert(self.ps().m.dom() =~= p3.m.dom().insert(node));
        Some(node)
    }

    /// An element name: an optional namespace prefix, then an identifier or `*`, one of
    /// which must be there; without it the parser goes back to where it was.
    #[verifier::spinoff_prover]
    #[verifier::rlimit(60)]
    pub fn parse_element_name(&mut self) -> (r: Option<NodeId>)
        requires
            old(self).wf(),
        ensures
            final(self).wf(),
            grew(*old(self), *final(self)),
            gave(*old(self), *final(self), r),
            r is Some ==> moved(*old(self), *final(self)),
            final(self).ctx() == old(self).ctx(),
            (r, final(self).ps()) == sp_element_name(old(self).ctx(), old(self).ps()),
            kept(old(self).ctx(), old(self).ps(), final(self).ps(), r),
    {
        let ghost c = self.ctx();
        let ghost p0 = self.ps();
        proof {
            reveal_strlit("*");
            assert("*"@ =~= seq!['*']);
        }
        let ghost t0 = self.tree.nodes();
        let mark = self.mark();
        let node = self.orphan(CssNodeType::ElementNameSelector);
        let ghost p1 = self.ps();
        let ghost t1 = self.tree.nodes();
        match self.parse_namespace_prefix() {
            Some(pre) => {
                let ghost t2 = self.tree.nodes();
                assert(self.ps().m[node] == p1.m[node]);
                self.append_node(node, pre);
                assert forall|k: NodeId| #[trigger] t0.contains_key(k) implies self.tree.nodes().contains_key(k)
                    && self.tree.nodes()[k] == t0[k] by {
                    assert(k != node);
                    assert(t1.contains_key(k) && t1[k] == t0[k]);
                    assert(t2.contains_key(k) && t2[k] == t1[k]);
                    assert(k != pre);
                }
            },
            None => {
                assert(self.ps().m[node] == p1.m[node]);
                assert forall|k: NodeId| #[trigger] t0.contains_key(k) implies self.tree.nodes().contains_key(k)
                    && self.tree.nodes()[k] == t0[k] by {
                    assert(k != node);
                    assert(t1.contains_key(k) && t1[k] == t0[k]);
                }
            },
        }
        assert forall|k: NodeId| #[trigger] t0.contains_key(k) implies self.tree.nodes().contains_key(k)
            && self.tree.nodes()[k] == t0[k] by {
            assert(k != node);
        }
        assert(self.ps().m[node].0 is None);
        let named = match self.parse_ident(None) {
            Some(id) => {
                self.append_node(node, id);
                true
            },
            None => self.accept_delim("*"),
        };
        assert forall|k: NodeId| #[trigger] t0.contains_key(k) implies self.tree.nodes().contains_key(k)
            && self.tree.nodes()[k] == t0[k] by {
            assert(k != node);
        }
        assert(self.ps().m[node].0 is None);
        if !named {
            self.restore_at_mark(mark);
            return None;
        }
        let ghost p5 = self.ps();
        self.finish(node, None);
        assert(self.ps().m.dom() =~= p5.m.dom());
        assert forall|k: NodeId| #[trigger] t0.contains_key(k) implies self.tree.nodes().contains_key(k)
            && self.tree.nodes()[k] == t0[k] by {
            assert(k != node);
        }
        Some(node)
    }

    /// A ratio, `number / number`, when the current token is a number; a missing second
    /// number is reported, a missing `/` sends the parser back to where it was.
    #[verifier::spinoff_prover]
    #[verifier::rlimit(60)]
    pub fn parse_ratio(&mut self) -> (r: Option<NodeId>)
        requires
            old(self).wf(),
        ensures
            final(self).wf(),
            grew(*old(self), *final(self)),
            gave(*old(self), *final(self), r),
            r is Some ==> moved(*old(self), *final(self)),
            final(self).ctx() == old(self).ctx(),
            (r, final(self).ps()) == sp_ratio(old(self).ctx(), old(self).ps()),
            kept(old(self).ctx(), old(self).ps(), final(self).ps(), r),
    {
        proof {
            reveal_strlit("/");
            assert("/"@ =~= seq!['/']);
        }
        let mark = self.mark();
        let node = self.orphan(CssNodeType::RatioValue);
        let ghost p1 = self.ps();
        if self.parse_numeric().is_none() {
            return None;
        }
        if !self.accept_delim("/") {
            self.restore_at_mark(mark);
            return None;
        }
        let ghost p3 = self.ps();
        let second = self.parse_numeric();
        let ghost p4 = self.ps();
        self.finish(node, if second.is_none() { Some(ParseError::NumberExpected) } else { None });
        assert(self.ps().m.dom() =~= p4.m.dom());
        Some(node)
    }

    /// A range operator of a media feature: `<` or `>`, with `=` when it touches it, or
    /// `=` alone.
    pub fn parse_media_feature_range_operator(&mut self) -> (r: bool)
        requires
            old(self).wf(),
        ensures
            final(self).wf(),
            grew(*old(self), *final(self)),
            final(self).ctx() == old(self).ctx(),
            (r, final(self).ps()) == sp_range_operator(old(self).ctx(), old(self).ps()),
            left(final(self).src(), final(self).state()) <= left(old(self).src(), old(self).state()),
    {
        proof {
            reveal_strlit("<");
            reveal_strlit(">");
            reveal_strlit("=");
            assert("<"@ =~= seq!['<']);
            assert(">"@ =~= seq!['>']);
            assert("="@ =~= seq!['=']);
        }
        if self.accept_delim("<") || self.accept_delim(">") {
            if !self.has_whitespace() {
                let _ = self.accept_delim("=");
            }
            return true;
        }
        self.accept_delim("=")
    }

    /// The name of a media feature: an identifier.
    pub fn parse_media_feature_name(&mut self) -> (r: Option<NodeId>)
        requires
            old(self).wf(),
        ensures
            final(self).wf(),
            grew(*old(self), *final(self)),
            gave(*old(self), *final(self), r),
            r is Some ==> moved(*old(self), *final(self)),
            final(self).ctx() == old(self).ctx(),
            (r, final(self).ps()) == sp_ident(old(self).ctx(), old(self).ps(), None),
            kept(old(self).ctx(), old(self).ps(), final(self).ps(), r),
    {
        self.parse_ident(None)
    }

    /// A combinator between selectors: `>` (or `>>>` written without spaces), `+`, `~`,
    /// or `/deep/` written without spaces.
    #[verifier::spinoff_prover]
    #[verifier::rlimit(80)]
    pub fn parse_combinator(&mut self) -> (r: Option<NodeId>)
        requires
            old(self).wf(),
        ensures
            final(self).wf(),
            grew(*old(self), *final(self)),
            gave(*old(self), *final(self), r),
            r is Some ==> moved(*old(self), *final(self)),
            final(self).ctx() == old(self).ctx(),
            (r, final(self).ps()) == sp_combinator(old(self).ctx(), old(self).ps()),
            kept(old(self).ctx(), old(self).ps(), final(self).ps(), r),
    {
        proof {
            reveal_strlit(">");
            reveal_strlit("+");
            reveal_strlit("~");
            reveal_strlit("/");
            assert(">"@ =~= seq!['>']);
            assert("+"@ =~= seq!['+']);
            assert("~"@ =~= seq!['~']);
            assert("/"@ =~= seq!['/']);
        }
        if self.peek_delim(">") {
            let node = self.orphan(CssNodeType::Undefined);
            self.consume_token();
            let mark = self.mark();
            if !self.has_whitespace() && self.accept_delim(">") {
                if !self.has_whitespace() && self.accept_delim(">") {
                    self.set_node_type(node, CssNodeType::SelectorCombinatorShadowPiercingDescendant);
                    self.finish(node, None);
                    return Some(node);
                }
                self.restore_at_mark(mark);
            }
            self.set_node_type(node, CssNodeType::SelectorCombinatorParent);
            self.finish(node, None);
            Some(node)
        } else if self.peek_delim("+") {
            let node = self.orphan(CssNodeType::SelectorCombinatorSibling);
            self.consume_token();
            self.finish(node, None);
            Some(node)
        } else if self.peek_delim("~") {
            let node = self.orphan(CssNodeType::SelectorCombinatorAllSiblings);
            self.consume_token();
            self.finish(node, None);
            Some(node)
        } else if self.peek_delim("/") {
            let node = self.orphan(CssNodeType::SelectorCombinatorShadowPiercingDescendant);
            self.consume_token();
            let mark = self.mark();
            if !self.has_whitespace() && self.accept_ident("deep") && !self.has_whitespace() && self.accept_delim("/") {
                self.finish(node, None);
                return Some(node);
            }
            self.restore_at_mark(mark);
            None
        } else {
            None
        }
    }

    /// Runs the parse function `f`.
    pub fn run(&mut self, f: ParseFn) -> (r: Option<NodeId>)
        requires
            old(self).wf(),
        ensures
            final(self).wf(),
            final(self).ctx() == old(self).ctx(),
            (r, final(self).ps()) == sp_run(old(self).ctx(), old(self).ps(), f),
            kept(old(self).ctx(), old(self).ps(), final(self).ps(), r),
    {
        match f {
            ParseFn::Ident => self.parse_ident(None),
            ParseFn::Operator => self.parse_operator(),
            ParseFn::UnaryOperator => self.parse_unary_operator(),
            ParseFn::Numeric => self.parse_numeric(),
            ParseFn::StringLiteral => self.parse_string_literal(),
            ParseFn::HexColor => self.parse_hex_color(),
            ParseFn::NamedLine => self.parse_named_line(),
            ParseFn::UnicodeRange => self.parse_unicode_range(),
            ParseFn::UriLiteral => self.parse_uri_literal(),
            ParseFn::FunctionIdentifier => self.parse_function_identifier(),
            ParseFn::NamespacePrefix => self.parse_namespace_prefix(),
            ParseFn::ElementName => self.parse_element_name(),
            ParseFn::Ratio => self.parse_ratio(),
            ParseFn::Combinator => self.parse_combinator(),
            ParseFn::MediaFeatureName => self.parse_media_feature_name(),
        }
    }

    /// Parses `input` with the parse function `f`, from the first token of the text, and
    /// gives back the tree (with the node made by `f`, which is not attached to the root)
    /// together with the text; nothing when `f` gives nothing, or when the text ends
    /// with a backslash, where scanning does not complete.
    pub fn parse_fn(input: String, f: ParseFn) -> (r: Option<CssNodeTree>)
        ensures
            !no_dangling_escape(input@) ==> r is None,
            no_dangling_escape(input@) ==> exists|p: Parser| #[trigger]
                started(p, input@) && {
                    let (n, q) = sp_run(p.ctx(), p.ps(), f);
                    &&& (r is Some <==> n is Some)
                    &&& (r matches Some(t) ==> t.1@ == input@ && tree_v(t.0.nodes()) == q.m)
                },
    {
        let ghost text = input@;
        match Parser::new_with_text(input) {
            None => None,
            Some(mut parser) => {
                let ghost p0 = parser;
                let n = parser.run(f);
                let ghost q = parser.ps();
                assert(started(p0, text));
                if n.is_some() {
                    let source = parser.scanner.stream.take_source();
                    let t = CssNodeTree::new(parser.tree, source);
                    assert(started(p0, text) && {
                        let (n2, q2) = sp_run(p0.ctx(), p0.ps(), f);
                        &&& (Some(t) is Some <==> n2 is Some)
                        &&& (t.1@ == text && tree_v(t.0.nodes()) == q2.m)
                    });
                    Some(t)
                } else {
                    assert(started(p0, text) && {
                        let (n2, q2) = sp_run(p0.ctx(), p0.ps(), f);
                        !(n2 is Some)
                    });
                    None
                }
            },
        }
    }

    /// Parses with the parse function `f` from where the parser stands; when it gives a
    /// node, the node becomes the last child of the root and the tree is given back
    /// together with the text.
    pub fn into_parsed_by_fn(self, f: ParseFn) -> (r: Option<CssNodeTree>)
        requires
            self.wf(),
        ensures
            ({
                let (n, q) = sp_run(self.ctx(), self.ps(), f);
                &&& (r is Some <==> n is Some)
                &&& (r matches Some(t) ==> t.1@ == self.src() && tree_v(t.0.nodes()) == sp_append(
                    q,
                    self.root(),
                    n->0,
                ).m)
            }),
    {
        let mut parser = self;
        match parser.run(f) {
            Some(id) => {
                let root = parser.root;
                parser.append_node(root, id);
                let source = parser.scanner.stream.take_source();
                Some(CssNodeTree::new(parser.tree, source))
            },
            None => None,
        }
    }

    /// `@charset`: the string after it and the `;` must follow; each missing one is
    /// reported.
    #[verifier::spinoff_prover]
    #[verifier::rlimit(60)]
    pub fn parse_charset(&mut self) -> (r: Option<NodeId>)
        requires
            old(self).wf(),
        ensures
            final(self).wf(),
            final(self).ctx() == old(self).ctx(),
            (r, final(self).ps()) == sp_charset(old(self).ctx(), old(self).ps()),
            kept(old(self).ctx(), old(self).ps(), final(self).ps(), r),
    {
        if !self.peek(TokenType::Charset) {
            return None;
        }
        let ghost p0 = self.ps();
        let node = self.orphan(CssNodeType::Undefined);
        self.consume_token();
        if !self.accept(TokenType::String) {
            self.finish(node, Some(ParseError::IdentifierExpected));
        }
        if !self.accept(TokenType::SemiColon) {
            self.finish(node, Some(ParseError::SemiColonExpected));
        }
        let ghost p5 = self.ps();
        self.finish(node, None);
        assert(self.ps().m.dom() =~= p5.m.dom());
        assert(p5.m.dom() =~= p0.m.dom().insert(node));
        Some(node)
    }

    /// A medium: an identifier.
    #[verifier::spinoff_prover]
    pub fn parse_medium(&mut self) -> (r: Option<NodeId>)
        requires
            old(self).wf(),
        ensures
            final(self).wf(),
            final(self).ctx() == old(self).ctx(),
            (r, final(self).ps()) == sp_medium(old(self).ctx(), old(self).ps()),
            kept(old(self).ctx(), old(self).ps(), final(self).ps(), r),
    {
        let node = self.orphan(CssNodeType::Undefined);
        match self.parse_ident(None) {
            Some(id) => {
                self.append_node(node, id);
                let ghost p3 = self.ps();
                self.finish(node, None);
                assert(self.ps().m.dom() =~= p3.m.dom());
                Some(node)
            },
            None => None,
        }
    }

    /// The name of a property: an identifier.
    pub fn parse_property_identifier(&mut self) -> (r: Option<NodeId>)
        requires
            old(self).wf(),
        ensures
            final(self).wf(),
            final(self).ctx() == old(self).ctx(),
            (r, final(self).ps()) == sp_ident(old(self).ctx(), old(self).ps(), None),
            kept(old(self).ctx(), old(self).ps(), final(self).ps(), r),
    {
        self.parse_ident(None)
    }

    /// The name in a simple selector: an identifier.
    pub fn parse_selector_ident(&mut self) -> (r: Option<NodeId>)
        requires
            old(self).wf(),
        ensures
            final(self).wf(),
            final(self).ctx() == old(self).ctx(),
            (r, final(self).ps()) == sp_ident(old(self).ctx(), old(self).ps(), None),
            kept(old(self).ctx(), old(self).ps(), final(self).ps(), r),
    {
        self.parse_ident(None)
    }

    /// The name of keyframes: an identifier that refers to keyframes.
    pub fn parse_keyframe_ident(&mut self) -> (r: Option<NodeId>)
        requires
            old(self).wf(),
        ensures
            final(self).wf(),
            final(self).ctx() == old(self).ctx(),
            (r, final(self).ps()) == sp_ident(old(self).ctx(), old(self).ps(), Some(seq![ReferenceType::Keyframe])),
            kept(old(self).ctx(), old(self).ps(), final(self).ps(), r),
    {
        let refs = vec![ReferenceType::Keyframe];
        assert(refs@ =~= seq![ReferenceType::Keyframe]);
        self.parse_ident(Some(refs.as_slice()))
    }
}


/// A range operator of a media feature: `<` or `>` is taken together with an `=` that
/// touches it, `<=` and `>=` alike, but not with one after a space; `=` alone is taken
/// too; any other token is no range operator, and nothing is taken.
pub proof fn law_range_operator(c: Ctx, ps: PS)
    ensures
        ({
            let t = ps.st.tok;
            let p1 = sp_consume(c, ps);
            let eq_touches = !has_ws(p1.st) && p1.st.tok.tt == TokenType::Delim && p1.st.tok.text == seq!['='];
            &&& (is_delim(t, '<') || is_delim(t, '>')) && eq_touches ==> sp_range_operator(c, ps) == (
                true,
                sp_consume(c, p1),
            )
            &&& (is_delim(t, '<') || is_delim(t, '>')) && !eq_touches ==> sp_range_operator(c, ps) == (true, p1)
            &&& is_delim(t, '=') ==> sp_range_operator(c, ps) == (true, p1)
            &&& !is_delim(t, '<') && !is_delim(t, '>') && !is_delim(t, '=') ==> sp_range_operator(c, ps) == (
                false,
                ps,
            )
        }),
{
    let t = ps.st.tok;
    assert(seq!['<'][0] == '<' && seq!['>'][0] == '>' && seq!['='][0] == '=');
    if t.text == seq!['<'] {
        assert(t.text != seq!['>'] && t.text != seq!['=']);
    }
    if t.text == seq!['>'] {
        assert(t.text != seq!['<'] && t.text != seq!['=']);
    }
    if t.text == seq!['='] {
        assert(t.text != seq!['<'] && t.text != seq!['>']);
    }
}

} // verus!
