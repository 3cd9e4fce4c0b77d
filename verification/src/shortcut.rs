//! Glue between the lexer and the parser: contextual token kinds, the parser's
//! input, and the tree-building steps with the trivia put back in place.
use crate::input::Input;
use crate::lex_to_syn::{lemma_piece_concat, LexedStr};
use crate::syntax_kind::SyntaxKind;
use crate::text::{
    all_hex, collect_chars, eq_chars, exec_is_digit, exec_is_hex, has_prefix, has_prefix_chars,
    is_digit, lowercase, str_to_lowercase,
};
use vstd::prelude::*;

verus! {

/// The contextual kind of a function token whose lower-cased text is `s`.
pub open spec fn function_context(s: Seq<char>) -> Option<SyntaxKind> {
    if s =~= seq!['s', 't', 'y', 'l', 'e', '('] {
        Some(SyntaxKind::CXFUNC_STYLE)
    } else if s =~= seq!['u', 'r', 'l', '('] {
        Some(SyntaxKind::CXFUNC_URL)
    } else if s =~= seq!['l', 'a', 'y', 'e', 'r', '('] {
        Some(SyntaxKind::CXFUNC_LAYER)
    } else if s =~= seq!['s', 'u', 'p', 'p', 'o', 'r', 't', 's', '('] {
        Some(SyntaxKind::CXFUNC_SUPPORTS)
    } else {
        None
    }
}

/// The contextual kind of an identifier whose lower-cased text is `s`.
pub open spec fn identifier_context(s: Seq<char>) -> Option<SyntaxKind> {
    if s =~= seq!['n', 'o', 't'] {
        Some(SyntaxKind::CXID_NOT)
    } else if s =~= seq!['a', 'n', 'd'] {
        Some(SyntaxKind::CXID_AND)
    } else if s =~= seq!['o', 'r'] {
        Some(SyntaxKind::CXID_OR)
    } else if s =~= seq!['o', 'n', 'l', 'y'] {
        Some(SyntaxKind::CXID_ONLY)
    } else if s =~= seq!['d', 'e', 'e', 'p'] {
        Some(SyntaxKind::CXID_DEEP)
    } else if s =~= seq!['i'] {
        Some(SyntaxKind::CXID_ATTRIB_I)
    } else if s =~= seq!['s'] {
        Some(SyntaxKind::CXID_ATTRIB_S)
    } else if s =~= seq!['n'] || s =~= seq!['-', 'n'] {
        Some(SyntaxKind::CXID_AN_PLUS_B_SYNTAX_AN)
    } else if s =~= seq!['o', 'f'] {
        Some(SyntaxKind::CXID_OF)
    } else if s =~= seq!['i', 'm', 'p', 'o', 'r', 't', 'a', 'n', 't'] {
        Some(SyntaxKind::CXID_IMPORTANT)
    } else if s =~= seq!['p', 'r', 'o', 'g', 'i', 'd'] {
        Some(SyntaxKind::CXID_PROGID)
    } else if s =~= seq!['u', 'r', 'l', 'p', 'r', 'e', 'f', 'i', 'x'] {
        Some(SyntaxKind::CXID_URLPREFIX)
    } else if s =~= seq!['v', 'a', 'l', 'i', 'd', '_', 'c', 'u', 's', 't', 'o', 'm', '_', 'p', 'r', 'o', 'p'] {
        Some(SyntaxKind::CXID_VALID_CUSTOM_PROP)
    } else if has_prefix(s, seq!['-', '-']) {
        Some(SyntaxKind::CXID_VALID_CUSTOM_PROP)
    } else {
        None
    }
}

/// The contextual kind of a function token: `style(`, `url(`, `layer(` or `supports(`, in any case.
pub fn cx_func(s: &str) -> (r: Option<SyntaxKind>)
    ensures
        r == function_context(lowercase(s@)),
{
    let lower = str_to_lowercase(s);
    let v = collect_chars(lower.as_str());
    if eq_chars(&v, &['s', 't', 'y', 'l', 'e', '(']) {
        return Some(SyntaxKind::CXFUNC_STYLE);
    }
    if eq_chars(&v, &['u', 'r', 'l', '(']) {
        return Some(SyntaxKind::CXFUNC_URL);
    }
    if eq_chars(&v, &['l', 'a', 'y', 'e', 'r', '(']) {
        return Some(SyntaxKind::CXFUNC_LAYER);
    }
    if eq_chars(&v, &['s', 'u', 'p', 'p', 'o', 'r', 't', 's', '(']) {
        return Some(SyntaxKind::CXFUNC_SUPPORTS);
    }
    None
}

/// The contextual kind of an identifier: a keyword of the selector and media grammars,
/// in any case, or a custom property name (starting with `--`).
pub fn cx_id(s: &str) -> (r: Option<SyntaxKind>)
    ensures
        r == identifier_context(lowercase(s@)),
{
    let lower = str_to_lowercase(s);
    let v = collect_chars(lower.as_str());
    if eq_chars(&v, &['n', 'o', 't']) {
        return Some(SyntaxKind::CXID_NOT);
    }
    if eq_chars(&v, &['a', 'n', 'd']) {
        return Some(SyntaxKind::CXID_AND);
    }
    if eq_chars(&v, &['o', 'r']) {
        return Some(SyntaxKind::CXID_OR);
    }
    if eq_chars(&v, &['o', 'n', 'l', 'y']) {
        return Some(SyntaxKind::CXID_ONLY);
    }
    if eq_chars(&v, &['d', 'e', 'e', 'p']) {
        return Some(SyntaxKind::CXID_DEEP);
    }
    if eq_chars(&v, &['i']) {
        return Some(SyntaxKind::CXID_ATTRIB_I);
    }
    if eq_chars(&v, &['s']) {
        return Some(SyntaxKind::CXID_ATTRIB_S);
    }
    if eq_chars(&v, &['n']) || eq_chars(&v, &['-', 'n']) {
        return Some(SyntaxKind::CXID_AN_PLUS_B_SYNTAX_AN);
    }
    if eq_chars(&v, &['o', 'f']) {
        return Some(SyntaxKind::CXID_OF);
    }
    if eq_chars(&v, &['i', 'm', 'p', 'o', 'r', 't', 'a', 'n', 't']) {
        return Some(SyntaxKind::CXID_IMPORTANT);
    }
    if eq_chars(&v, &['p', 'r', 'o', 'g', 'i', 'd']) {
        return Some(SyntaxKind::CXID_PROGID);
    }
    if eq_chars(&v, &['u', 'r', 'l', 'p', 'r', 'e', 'f', 'i', 'x']) {
        return Some(SyntaxKind::CXID_URLPREFIX);
    }
    if eq_chars(&v, &['v', 'a', 'l', 'i', 'd', '_', 'c', 'u', 's', 't', 'o', 'm', '_', 'p', 'r', 'o', 'p']) {
        return Some(SyntaxKind::CXID_VALID_CUSTOM_PROP);
    }
    if has_prefix_chars(&v, &['-', '-']) {
        return Some(SyntaxKind::CXID_VALID_CUSTOM_PROP);
    }
    None
}

/// The contextual kind of a hash whose text is `s`: a valid hex colour is `#`
/// followed by three, four, six or eight hex digits.
pub open spec fn hash_context(s: Seq<char>) -> Option<SyntaxKind> {
    if s.len() >= 1 && s[0] == '#' && all_hex(s.drop_first()) && (s.len() - 1 == 3 || s.len() - 1
        == 4 || s.len() - 1 == 6 || s.len() - 1 == 8) {
        Some(SyntaxKind::CXHASH_VALID_HEX)
    } else {
        None
    }
}

/// The contextual kind of a dimension with an unknown unit whose text is `s`: the
/// `An` of an `An+B` expression is digits followed by `n`.
pub open spec fn dimension_context(s: Seq<char>) -> Option<SyntaxKind> {
    if s.len() >= 1 && s.last() == 'n' && forall|j: int| 0 <= j < s.len() - 1 ==> is_digit(#[trigger] s[j]) {
        Some(SyntaxKind::CXDIM_AN_PLUS_B)
    } else {
        None
    }
}

/// The contextual kind of a hash token.
pub fn cx_hash(s: &str) -> (r: Option<SyntaxKind>)
    ensures
        r == hash_context(s@),
{
    let v = collect_chars(s);
    if v.len() == 0 || v[0] != '#' {
        return None;
    }
    let mut count: usize = 0;
    let mut j: usize = 1;
    while j < v.len()
        invariant
            1 <= j <= v@.len(),
            count == j - 1,
            v@ == s@,
            v@[0] == '#',
            forall|k: int| 1 <= k < j ==> crate::text::is_hex(#[trigger] v@[k]),
        decreases v@.len() - j,
    {
        if !exec_is_hex(v[j]) {
            proof {
                assert(v@.drop_first()[j - 1] == v@[j as int]);
            }
            return None;
        }
        count += 1;
        j += 1;
    }
    proof {
        assert forall|k: int| 0 <= k < v@.drop_first().len() implies crate::text::is_hex(
            #[trigger] v@.drop_first()[k],
        ) by {
            assert(v@.drop_first()[k] == v@[k + 1]);
        }
    }
    if count == 3 || count == 4 || count == 6 || count == 8 {
        Some(SyntaxKind::CXHASH_VALID_HEX)
    } else {
        None
    }
}

/// The contextual kind of a dimension with an unknown unit.
pub fn cx_dim(s: &str) -> (r: Option<SyntaxKind>)
    ensures
        r == dimension_context(s@),
{
    let v = collect_chars(s);
    if v.len() == 0 || v[v.len() - 1] != 'n' {
        return None;
    }
    let mut j: usize = 0;
    while j < v.len() - 1
        invariant
            v@ == s@,
            v@.len() >= 1,
            j < v@.len(),
            forall|k: int| 0 <= k < j ==> is_digit(#[trigger] v@[k]),
        decreases v@.len() - j,
    {
        if !exec_is_digit(v[j]) {
            return None;
        }
        j += 1;
    }
    Some(SyntaxKind::CXDIM_AN_PLUS_B)
}

/// Doc comments that document what follows: `///` and `/**`, but not `////` or `/***`.
pub open spec fn outer_doc(text: Seq<char>) -> bool {
    !(has_prefix(text, seq!['/', '/', '/', '/']) || has_prefix(text, seq!['/', '*', '*', '*']))
        && (has_prefix(text, seq!['/', '/', '/']) || has_prefix(text, seq!['/', '*', '*']))
}

/// Doc comments that document what encloses them: `//!` and `/*!`.
pub open spec fn inner_doc(text: Seq<char>) -> bool {
    has_prefix(text, seq!['/', '/', '!']) || has_prefix(text, seq!['/', '*', '!'])
}

pub fn is_outer(text: &str) -> (r: bool)
    ensures
        r == outer_doc(text@),
{
    let v = collect_chars(text);
    if has_prefix_chars(&v, &['/', '/', '/', '/']) || has_prefix_chars(&v, &['/', '*', '*', '*']) {
        return false;
    }
    has_prefix_chars(&v, &['/', '/', '/']) || has_prefix_chars(&v, &['/', '*', '*'])
}

pub fn is_inner(text: &str) -> (r: bool)
    ensures
        r == inner_doc(text@),
{
    let v = collect_chars(text);
    has_prefix_chars(&v, &['/', '/', '!']) || has_prefix_chars(&v, &['/', '*', '!'])
}

/// Whether `t` holds two newlines in a row.
pub open spec fn has_blank_line(t: Seq<char>) -> bool {
    exists|j: int| 0 <= j && j + 1 < t.len() && #[trigger] t[j] == '\n' && t[j + 1] == '\n'
}

fn contains_blank_line(text: &str) -> (r: bool)
    ensures
        r == has_blank_line(text@),
{
    let v = collect_chars(text);
    if v.len() < 2 {
        return false;
    }
    let mut j: usize = 0;
    while j < v.len() - 1
        invariant
            v@ == text@,
            v@.len() >= 2,
            forall|k: int| 0 <= k < j && k + 1 < v@.len() ==> !(#[trigger] v@[k] == '\n' && v@[k + 1]
                == '\n'),
        decreases v@.len() - j,
    {
        if v[j] == '\n' && v[j + 1] == '\n' {
            return true;
        }
        j += 1;
    }
    false
}

/// How many of the trivia `ts` (listed from the node outwards) attach to a node
/// that starts after them, scanning from position `i` with `res` attached so far:
/// comments attach, up to an inner doc comment or a blank line (a blank line that
/// an outer doc comment follows is passed over).
pub open spec fn attached_trivias(ts: Seq<(SyntaxKind, Seq<char>)>, i: int, res: nat) -> nat
    decreases ts.len() - i,
{
    if i < 0 || i >= ts.len() {
        res
    } else {
        let (k, t) = ts[i];
        if k == SyntaxKind::WHITESPACE && has_blank_line(t) {
            if i + 1 < ts.len() && ts[i + 1].0 == SyntaxKind::COMMENT && outer_doc(ts[i + 1].1) {
                attached_trivias(ts, i + 1, res)
            } else {
                res
            }
        } else if k == SyntaxKind::COMMENT {
            if inner_doc(t) {
                res
            } else {
                attached_trivias(ts, i + 1, (i + 1) as nat)
            }
        } else {
            attached_trivias(ts, i + 1, res)
        }
    }
}

proof fn lemma_attached_bound(ts: Seq<(SyntaxKind, Seq<char>)>, i: int, res: nat)
    requires
        0 <= i,
        res <= i,
        i <= ts.len(),
    ensures
        attached_trivias(ts, i, res) <= ts.len(),
    decreases ts.len() - i,
{
    if i < ts.len() {
        let (k, t) = ts[i];
        if k == SyntaxKind::WHITESPACE && has_blank_line(t) {
            if i + 1 < ts.len() && ts[i + 1].0 == SyntaxKind::COMMENT && outer_doc(ts[i + 1].1) {
                lemma_attached_bound(ts, i + 1, res);
            }
        } else if k == SyntaxKind::COMMENT {
            if !inner_doc(t) {
                lemma_attached_bound(ts, i + 1, (i + 1) as nat);
            }
        } else {
            lemma_attached_bound(ts, i + 1, res);
        }
    }
}

/// The trivia with their texts.
pub open spec fn trivia_texts(trivias: Seq<(SyntaxKind, &str)>) -> Seq<(SyntaxKind, Seq<char>)> {
    trivias.map_values(|p: (SyntaxKind, &str)| (p.0, p.1@))
}

/// How many of the leading trivia `trivias` (listed from the node outwards) go
/// inside a node of kind `kind` that starts after them.
pub fn n_attached_trivias(kind: SyntaxKind, trivias: &Vec<(SyntaxKind, &str)>) -> (r: usize)
    ensures
        r == attached_trivias(trivia_texts(trivias@), 0, 0),
        r <= trivias@.len(),
{
    let ghost ts = trivia_texts(trivias@);
    proof {
        lemma_attached_bound(ts, 0, 0);
    }
    let mut res: usize = 0;
    let mut i: usize = 0;
    while i < trivias.len()
        invariant_except_break
            i <= trivias@.len(),
            ts == trivia_texts(trivias@),
            res <= i,
            attached_trivias(ts, i as int, res as nat) == attached_trivias(ts, 0, 0),
        ensures
            res == attached_trivias(ts, 0, 0),
        decreases trivias@.len() - i,
    {
        let (k, text) = trivias[i];
        proof {
            assert(ts[i as int] == (k, text@));
            if i + 1 < trivias@.len() {
                assert(ts[i + 1] == (trivias@[i + 1].0, trivias@[i + 1].1@));
            }
        }
        if k == SyntaxKind::WHITESPACE && contains_blank_line(text) {
            if i + 1 < trivias.len() {
                let (nk, ntext) = trivias[i + 1];
                if nk == SyntaxKind::COMMENT && is_outer(ntext) {
                    i += 1;
                    continue;
                }
            }
            break;
        } else if k == SyntaxKind::COMMENT {
            if is_inner(text) {
                break;
            }
            res = i + 1;
        }
        i += 1;
    }
    res
}

/// The contextual kind the parser gets with a non-trivia token of kind `k` whose
/// text is `t`.
pub open spec fn context_of(k: SyntaxKind, t: Seq<char>) -> SyntaxKind {
    if k == SyntaxKind::IDENTIFIER {
        match identifier_context(lowercase(t)) {
            Some(c) => c,
            None => SyntaxKind::IDENTIFIER,
        }
    } else if k == SyntaxKind::FUNCTION {
        match function_context(lowercase(t)) {
            Some(c) => c,
            None => SyntaxKind::FUNCTION,
        }
    } else if k == SyntaxKind::ID_HASH {
        match hash_context(t) {
            Some(c) => c,
            None => SyntaxKind::ID_HASH,
        }
    } else if k == SyntaxKind::UNRESTRICTED_HASH {
        match hash_context(t) {
            Some(c) => c,
            None => SyntaxKind::UNRESTRICTED_HASH,
        }
    } else if k == SyntaxKind::DIM_UNKNOWN {
        match dimension_context(t) {
            Some(c) => c,
            None => SyntaxKind::DIM_UNKNOWN,
        }
    } else {
        SyntaxKind::EOF
    }
}

/// Whether `k` is not trivia.
pub open spec fn significant(k: SyntaxKind) -> bool {
    !k.spec_is_trivia()
}

/// The parser input made of the first `n` tokens of `l`: the kinds and contextual
/// kinds of the tokens that are not trivia, and for each of them whether trivia
/// followed it.
pub open spec fn parser_input(l: LexedStr, n: int) -> (Seq<SyntaxKind>, Seq<SyntaxKind>, Seq<bool>)
    decreases n,
{
    if n <= 0 {
        (Seq::empty(), Seq::empty(), Seq::empty())
    } else {
        let (k, c, w) = parser_input(l, n - 1);
        let kind = l.kinds()[n - 1];
        if kind.spec_is_trivia() {
            if n - 1 > 0 && !l.kinds()[n - 2].spec_is_trivia() {
                (k, c, w.update(w.len() - 1, true))
            } else {
                (k, c, w)
            }
        } else {
            (k.push(kind), c.push(context_of(kind, l.piece(n - 1, n))), w.push(false))
        }
    }
}

proof fn lemma_parser_input(l: LexedStr, n: int)
    requires
        0 <= n < l.kinds().len(),
    ensures
        parser_input(l, n).0 == l.kinds().take(n).filter(|k: SyntaxKind| significant(k)),
        parser_input(l, n).1.len() == parser_input(l, n).0.len(),
        parser_input(l, n).2.len() == parser_input(l, n).0.len(),
        n > 0 && !l.kinds()[n - 1].spec_is_trivia() ==> parser_input(l, n).0.len() > 0,
    decreases n,
{
    reveal(Seq::filter);
    if n > 0 {
        lemma_parser_input(l, n - 1);
        assert(l.kinds().take(n).drop_last() =~= l.kinds().take(n - 1));
        assert(l.kinds().take(n).last() == l.kinds()[n - 1]);
    } else {
        assert(l.kinds().take(0) =~= Seq::<SyntaxKind>::empty());
    }
}

impl<'a> LexedStr<'a> {
    /// The parser's input: the tokens that are not trivia, with their contextual
    /// kinds, and for each whether trivia followed it.
    pub fn to_input(&self) -> (res: Input)
        requires
            self.wf(),
        ensures
            res.wf(),
            (res.kinds(), res.contextual_kinds(), res.whitespace_after()) == parser_input(
                *self,
                self.token_count() as int,
            ),
            res.kinds() == self.kinds().take(self.token_count() as int).filter(
                |k: SyntaxKind| significant(k),
            ),
    {
        let mut res = Input::default();
        let mut set_had_whitespace = true;
        let n = self.len();
        let mut i: usize = 0;
        while i < n
            invariant
                self.wf(),
                n == self.token_count(),
                i <= n,
                res.wf(),
                (res.kinds(), res.contextual_kinds(), res.whitespace_after()) == parser_input(
                    *self,
                    i as int,
                ),
                set_had_whitespace == (i == 0 || self.kinds()[i - 1].spec_is_trivia()),
            decreases n - i,
        {
            proof {
                lemma_parser_input(*self, i as int);
            }
            let kind = self.kind(i);
            if kind.is_trivia() {
                if !set_had_whitespace {
                    res.had_whitespace();
                    set_had_whitespace = true;
                }
                i += 1;
                continue;
            }
            set_had_whitespace = false;
            if kind == SyntaxKind::IDENTIFIER {
                let contextual_kw = match cx_id(self.text(i)) {
                    Some(k) => k,
                    None => SyntaxKind::IDENTIFIER,
                };
                res.push_ident(contextual_kw);
            } else if kind == SyntaxKind::FUNCTION {
                let contextual_kw = match cx_func(self.text(i)) {
                    Some(k) => k,
                    None => SyntaxKind::FUNCTION,
                };
                res.push_func(contextual_kw);
            } else if kind == SyntaxKind::ID_HASH {
                let contextual_kw = match cx_hash(self.text(i)) {
                    Some(k) => k,
                    None => SyntaxKind::ID_HASH,
                };
                res.push_id_hash(contextual_kw);
            } else if kind == SyntaxKind::UNRESTRICTED_HASH {
                let contextual_kw = match cx_hash(self.text(i)) {
                    Some(k) => k,
                    None => SyntaxKind::UNRESTRICTED_HASH,
                };
                res.push_unrestriced_hash(contextual_kw);
            } else if kind == SyntaxKind::DIM_UNKNOWN {
                let contextual_kw = match cx_dim(self.text(i)) {
                    Some(k) => k,
                    None => SyntaxKind::DIM_UNKNOWN,
                };
                res.push_unknown_dimension(contextual_kw);
            } else {
                res.push(kind);
            }
            i += 1;
        }
        proof {
            lemma_parser_input(*self, n as int);
        }
        res
    }
}

/// One step of the parser's output.
#[derive(Clone, Debug)]
pub enum Step {
    /// A token made of `n_input_tokens` raw tokens glued together.
    Token { kind: SyntaxKind, n_input_tokens: u8 },
    /// The start of a node.
    Enter { kind: SyntaxKind },
    /// The end of the innermost open node.
    Exit,
    /// A parse error at the current position.
    Error { msg: String },
}

/// One event of building the syntax tree, trivia included.
#[derive(Debug)]
pub enum StrStep<'a> {
    Token { kind: SyntaxKind, text: &'a str },
    Enter { kind: SyntaxKind },
    Exit,
    Error { msg: &'a str, pos: usize },
}

/// A tree-building event with its texts.
pub enum Event {
    Token { kind: SyntaxKind, text: Seq<char> },
    Enter { kind: SyntaxKind },
    Exit,
    Error { msg: Seq<char>, pos: int },
}

impl<'a> StrStep<'a> {
    pub open spec fn event(self) -> Event {
        match self {
            StrStep::Token { kind, text } => Event::Token { kind, text: text@ },
            StrStep::Enter { kind } => Event::Enter { kind },
            StrStep::Exit => Event::Exit,
            StrStep::Error { msg, pos } => Event::Error { msg: msg@, pos: pos as int },
        }
    }
}

/// The events of a sequence of steps.
pub open spec fn events<'a>(v: Seq<StrStep<'a>>) -> Seq<Event> {
    v.map_values(|s: StrStep<'a>| s.event())
}

/// Where the tree builder stands between two nodes: before the root, in the
/// middle, or after an exit that has not been passed on yet (trivia that follow
/// go before it).
#[derive(Clone, Copy, PartialEq, Eq, Structural, Debug)]
pub enum State {
    PendingEnter,
    Normal,
    PendingExit,
}

/// The tree builder's state: its state, the next raw token, and the events sent so far.
pub struct Progress {
    pub state: State,
    pub pos: int,
    pub out: Seq<Event>,
}

/// Number of trivia tokens from `pos` on.
pub open spec fn trivia_run(l: LexedStr, pos: int) -> nat
    decreases l.token_count() - pos,
{
    if 0 <= pos < l.token_count() && l.kinds()[pos].spec_is_trivia() {
        1 + trivia_run(l, pos + 1)
    } else {
        0
    }
}

/// Sends the next `n` raw tokens one by one.
pub open spec fn emit_each(l: LexedStr, p: Progress, n: nat) -> Progress
    decreases n,
{
    if n == 0 {
        p
    } else {
        let q = emit_each(l, p, (n - 1) as nat);
        Progress {
            state: q.state,
            pos: q.pos + 1,
            out: q.out.push(Event::Token { kind: l.kinds()[q.pos], text: l.piece(q.pos, q.pos + 1) }),
        }
    }
}

/// Sends the trivia that follow.
pub open spec fn eat_trivias(l: LexedStr, p: Progress) -> Progress {
    emit_each(l, p, trivia_run(l, p.pos))
}

/// Passes on a pending exit.
pub open spec fn close_pending(p: Progress) -> Progress {
    Progress {
        state: State::Normal,
        pos: p.pos,
        out: if p.state == State::PendingExit {
            p.out.push(Event::Exit)
        } else {
            p.out
        },
    }
}

/// The `n` tokens before `pos + n`, nearest to `pos + n` first, with their texts.
pub open spec fn leading_trivias(l: LexedStr, pos: int, n: nat) -> Seq<(SyntaxKind, Seq<char>)> {
    Seq::new(n, |j: int| (l.kinds()[pos + n - 1 - j], l.piece(pos + n - 1 - j, pos + n - j)))
}

/// A token step: the pending exit, then the trivia, then the token of `n` raw tokens.
/// Undefined before the root, and when fewer than `n` tokens (or none) are left.
pub open spec fn token_step(l: LexedStr, p: Progress, kind: SyntaxKind, n: nat) -> Option<Progress> {
    if p.state == State::PendingEnter {
        None
    } else {
        let q = eat_trivias(l, close_pending(p));
        if n >= 1 && q.pos + n <= l.token_count() {
            Some(
                Progress {
                    state: q.state,
                    pos: q.pos + n,
                    out: q.out.push(Event::Token { kind, text: l.piece(q.pos, q.pos + n) }),
                },
            )
        } else {
            None
        }
    }
}

/// An enter step. The root starts at once; another node gets the pending exit
/// first, then the leading trivia that do not attach to it, then its start, then
/// the trivia that do.
pub open spec fn enter_step(l: LexedStr, p: Progress, kind: SyntaxKind) -> Progress {
    if p.state == State::PendingEnter {
        Progress { state: State::Normal, pos: p.pos, out: p.out.push(Event::Enter { kind }) }
    } else {
        let q = close_pending(p);
        let nt = trivia_run(l, q.pos);
        let na = attached_trivias(leading_trivias(l, q.pos, nt), 0, 0);
        let q2 = emit_each(l, q, (nt - na) as nat);
        let q3 = Progress { state: q2.state, pos: q2.pos, out: q2.out.push(Event::Enter { kind }) };
        emit_each(l, q3, na)
    }
}

/// An exit step: it waits, so that the trivia after it go before it.
pub open spec fn exit_step(p: Progress) -> Option<Progress> {
    if p.state == State::PendingEnter {
        None
    } else {
        Some(
            Progress {
                state: State::PendingExit,
                pos: p.pos,
                out: if p.state == State::PendingExit {
                    p.out.push(Event::Exit)
                } else {
                    p.out
                },
            },
        )
    }
}

/// An error step: the message, at the byte offset of the next raw token.
pub open spec fn error_step(l: LexedStr, p: Progress, msg: Seq<char>) -> Progress {
    Progress {
        state: p.state,
        pos: p.pos,
        out: p.out.push(Event::Error { msg, pos: l.starts()[p.pos] as int }),
    }
}

/// One step of the parser's output.
pub open spec fn do_step(l: LexedStr, p: Progress, s: Step) -> Option<Progress> {
    match s {
        Step::Token { kind, n_input_tokens } => token_step(l, p, kind, n_input_tokens as nat),
        Step::Enter { kind } => Some(enter_step(l, p, kind)),
        Step::Exit => exit_step(p),
        Step::Error { msg } => Some(error_step(l, p, msg@)),
    }
}

/// The first `n` steps, from `p`.
pub open spec fn run_steps(l: LexedStr, steps: Seq<Step>, n: int, p: Progress) -> Option<Progress>
    decreases n,
{
    if n <= 0 {
        Some(p)
    } else {
        match run_steps(l, steps, n - 1, p) {
            Some(q) => do_step(l, q, steps[n - 1]),
            None => None,
        }
    }
}

/// The whole build: the steps from before the root, then the trailing trivia and
/// the last exit. Undefined unless the steps end after an exit.
pub open spec fn build(l: LexedStr, steps: Seq<Step>, out: Seq<Event>) -> Option<Progress> {
    match run_steps(l, steps, steps.len() as int, Progress { state: State::PendingEnter, pos: 0, out }) {
        Some(q) => if q.state == State::PendingExit {
            let r = eat_trivias(l, Progress { state: State::Normal, pos: q.pos, out: q.out });
            Some(Progress { state: r.state, pos: r.pos, out: r.out.push(Event::Exit) })
        } else {
            None
        },
        None => None,
    }
}

/// The texts of the token events, joined.
pub open spec fn token_text(out: Seq<Event>) -> Seq<char>
    decreases out.len(),
{
    if out.len() == 0 {
        Seq::empty()
    } else {
        let t = token_text(out.drop_last());
        match out.last() {
            Event::Token { text, .. } => t + text,
            _ => t,
        }
    }
}

proof fn lemma_trivia_run_bound(l: LexedStr, pos: int)
    requires
        0 <= pos <= l.token_count(),
    ensures
        pos + trivia_run(l, pos) <= l.token_count(),
        forall|j: int| pos <= j < pos + trivia_run(l, pos) ==> #[trigger] l.kinds()[j].spec_is_trivia(),
        pos + trivia_run(l, pos) < l.token_count() ==> !l.kinds()[pos + trivia_run(l, pos)].spec_is_trivia(),
    decreases l.token_count() - pos,
{
    if pos < l.token_count() && l.kinds()[pos].spec_is_trivia() {
        lemma_trivia_run_bound(l, pos + 1);
    }
}

proof fn lemma_emit_each(l: LexedStr, p: Progress, n: nat)
    ensures
        emit_each(l, p, n).pos == p.pos + n,
        emit_each(l, p, n).state == p.state,
    decreases n,
{
    if n > 0 {
        lemma_emit_each(l, p, (n - 1) as nat);
    }
}

/// Puts the trivia back between the parser's steps and sends the resulting
/// events to a sink.
struct Builder<'a, 't> {
    lexed: &'a LexedStr<'t>,
    pos: usize,
    state: State,
}

impl<'a, 't> Builder<'a, 't> {
    spec fn inv(self) -> bool {
        self.lexed.wf() && self.pos <= self.lexed.token_count()
    }

    spec fn model(self, sink: Seq<StrStep<'a>>) -> Progress {
        Progress { state: self.state, pos: self.pos as int, out: events(sink) }
    }

    fn do_token(&mut self, sink: &mut Vec<StrStep<'a>>, kind: SyntaxKind, n_tokens: usize)
        requires
            old(self).inv(),
            n_tokens >= 1,
            old(self).pos + n_tokens <= old(self).lexed.token_count(),
        ensures
            final(self).inv(),
            final(self).lexed == old(self).lexed,
            final(self).model(final(sink)@) == (Progress {
                state: old(self).state,
                pos: old(self).pos + n_tokens,
                out: events(old(sink)@).push(Event::Token {
                    kind,
                    text: old(self).lexed.piece(old(self).pos as int, old(self).pos + n_tokens),
                }),
            }),
    {
        let len = self.lexed.len();
        let text = self.lexed.range_text(self.pos..self.pos + n_tokens);
        self.pos += n_tokens;
        sink.push(StrStep::Token { kind, text });
        proof {
            assert(events(sink@) =~= events(old(sink)@).push(Event::Token { kind, text: text@ }));
        }
    }

    fn eat_trivias(&mut self, sink: &mut Vec<StrStep<'a>>)
        requires
            old(self).inv(),
        ensures
            final(self).inv(),
            final(self).lexed == old(self).lexed,
            final(self).model(final(sink)@) == eat_trivias(*old(self).lexed, old(self).model(old(sink)@)),
    {
        let ghost l = *self.lexed;
        let ghost p0 = self.model(sink@);
        proof {
            lemma_trivia_run_bound(l, p0.pos);
        }
        while self.pos < self.lexed.len()
            invariant_except_break
                self.inv(),
                self.lexed == old(self).lexed,
                l == *self.lexed,
                p0.pos <= self.pos <= p0.pos + trivia_run(l, p0.pos),
                p0.pos + trivia_run(l, p0.pos) <= l.token_count(),
                forall|j: int| p0.pos <= j < p0.pos + trivia_run(l, p0.pos) ==> #[trigger] l.kinds()[j].spec_is_trivia(),
                p0.pos + trivia_run(l, p0.pos) < l.token_count() ==> !l.kinds()[p0.pos + trivia_run(l, p0.pos)].spec_is_trivia(),
                self.model(sink@) == emit_each(l, p0, (self.pos - p0.pos) as nat),
            ensures
                self.inv(),
                self.lexed == old(self).lexed,
                self.model(sink@) == emit_each(l, p0, trivia_run(l, p0.pos)),
            decreases l.token_count() - self.pos,
        {
            let kind = self.lexed.kind(self.pos);
            if !kind.is_trivia() {
                break;
            }
            let ghost before = self.model(sink@);
            self.do_token(sink, kind, 1);
            proof {
                lemma_emit_each(l, p0, (self.pos - 1 - p0.pos) as nat);
                assert(self.model(sink@) == emit_each(l, p0, (self.pos - p0.pos) as nat));
            }
        }
    }

    fn eat_n_trivias(&mut self, sink: &mut Vec<StrStep<'a>>, n: usize)
        requires
            old(self).inv(),
            old(self).pos + n <= old(self).lexed.token_count(),
        ensures
            final(self).inv(),
            final(self).lexed == old(self).lexed,
            final(self).model(final(sink)@) == emit_each(*old(self).lexed, old(self).model(old(sink)@), n as nat),
    {
        let ghost l = *self.lexed;
        let ghost p0 = self.model(sink@);
        let mut i: usize = 0;
        while i < n
            invariant
                self.inv(),
                self.lexed == old(self).lexed,
                l == *self.lexed,
                i <= n,
                p0.pos + n <= l.token_count(),
                self.pos == p0.pos + i,
                self.model(sink@) == emit_each(l, p0, i as nat),
            decreases n - i,
        {
            let kind = self.lexed.kind(self.pos);
            self.do_token(sink, kind, 1);
            proof {
                lemma_emit_each(l, p0, i as nat);
            }
            i += 1;
        }
    }

    fn token(&mut self, sink: &mut Vec<StrStep<'a>>, kind: SyntaxKind, n_tokens: u8)
        requires
            old(self).inv(),
            token_step(*old(self).lexed, old(self).model(old(sink)@), kind, n_tokens as nat) is Some,
        ensures
            final(self).inv(),
            final(self).lexed == old(self).lexed,
            final(self).model(final(sink)@) == token_step(*old(self).lexed, old(self).model(old(sink)@), kind, n_tokens as nat)->0,
    {
        let ghost l = *self.lexed;
        let st = self.state;
        self.state = State::Normal;
        match st {
            State::PendingEnter => {},
            State::PendingExit => {
                sink.push(StrStep::Exit);
            },
            State::Normal => {},
        }
        proof {
            assert(events(sink@) =~= close_pending(old(self).model(old(sink)@)).out);
        }
        self.eat_trivias(sink);
        proof {
            lemma_emit_each(l, close_pending(old(self).model(old(sink)@)), trivia_run(l, old(self).pos as int));
        }
        self.do_token(sink, kind, n_tokens as usize);
    }

    fn enter(&mut self, sink: &mut Vec<StrStep<'a>>, kind: SyntaxKind)
        requires
            old(self).inv(),
        ensures
            final(self).inv(),
            final(self).lexed == old(self).lexed,
            final(self).model(final(sink)@) == enter_step(*old(self).lexed, old(self).model(old(sink)@), kind),
    {
        let ghost l = *self.lexed;
        let st = self.state;
        self.state = State::Normal;
        match st {
            State::PendingEnter => {
                sink.push(StrStep::Enter { kind });
                proof {
                    assert(events(sink@) =~= events(old(sink)@).push(Event::Enter { kind }));
                }
                return;
            },
            State::PendingExit => {
                sink.push(StrStep::Exit);
            },
            State::Normal => {},
        }
        let ghost q = close_pending(old(self).model(old(sink)@));
        proof {
            assert(events(sink@) =~= q.out);
            lemma_trivia_run_bound(l, q.pos);
        }
        let len = self.lexed.len();
        let mut n_trivias: usize = 0;
        while self.pos + n_trivias < len && self.lexed.kind(self.pos + n_trivias).is_trivia()
            invariant
                self.inv(),
                len == l.token_count(),
                l == *self.lexed,
                q.pos == self.pos,
                self.pos + trivia_run(l, q.pos) <= l.token_count(),
                forall|j: int| q.pos <= j < q.pos + trivia_run(l, q.pos) ==> #[trigger] l.kinds()[j].spec_is_trivia(),
                q.pos + trivia_run(l, q.pos) < l.token_count() ==> !l.kinds()[q.pos + trivia_run(l, q.pos)].spec_is_trivia(),
                n_trivias <= trivia_run(l, q.pos),
            decreases l.token_count() - self.pos - n_trivias,
        {
            n_trivias += 1;
        }
        let ghost nt = trivia_run(l, q.pos);
        assert(n_trivias == nt);
        let mut trivias: Vec<(SyntaxKind, &str)> = Vec::new();
        let mut j: usize = n_trivias;
        while j > 0
            invariant
                self.inv(),
                l == *self.lexed,
                q.pos == self.pos,
                len == l.token_count(),
                self.pos + n_trivias <= l.token_count(),
                j <= n_trivias,
                trivia_texts(trivias@) == leading_trivias(l, q.pos, n_trivias as nat).take(n_trivias - j),
            decreases j,
        {
            j -= 1;
            let k = self.lexed.kind(self.pos + j);
            let t = self.lexed.text(self.pos + j);
            let ghost old_ts = trivias@;
            trivias.push((k, t));
            proof {
                assert(trivia_texts(trivias@) =~= trivia_texts(old_ts).push((k, t@)));
                assert(leading_trivias(l, q.pos, n_trivias as nat).take(n_trivias - j) =~= leading_trivias(l, q.pos, n_trivias as nat).take(n_trivias - j - 1).push((k, t@)));
            }
        }
        proof {
            assert(leading_trivias(l, q.pos, n_trivias as nat).take(n_trivias as int) =~= leading_trivias(l, q.pos, n_trivias as nat));
        }
        let n_attached = n_attached_trivias(kind, &trivias);
        self.eat_n_trivias(sink, n_trivias - n_attached);
        proof {
            lemma_emit_each(l, q, (nt - n_attached) as nat);
        }
        let ghost q2 = self.model(sink@);
        sink.push(StrStep::Enter { kind });
        proof {
            assert(events(sink@) =~= q2.out.push(Event::Enter { kind }));
        }
        self.eat_n_trivias(sink, n_attached);
    }

    fn exit(&mut self, sink: &mut Vec<StrStep<'a>>)
        requires
            old(self).inv(),
            exit_step(old(self).model(old(sink)@)) is Some,
        ensures
            final(self).inv(),
            final(self).lexed == old(self).lexed,
            final(self).model(final(sink)@) == exit_step(old(self).model(old(sink)@))->0,
    {
        let st = self.state;
        self.state = State::PendingExit;
        match st {
            State::PendingEnter => {},
            State::PendingExit => {
                sink.push(StrStep::Exit);
            },
            State::Normal => {},
        }
        proof {
            assert(events(sink@) =~= exit_step(old(self).model(old(sink)@))->0.out);
        }
    }
}

proof fn lemma_run_prefix(l: LexedStr, steps: Seq<Step>, i: int, n: int, p: Progress)
    requires
        0 <= i <= n,
        run_steps(l, steps, n, p) is Some,
    ensures
        run_steps(l, steps, i, p) is Some,
    decreases n - i,
{
    if i < n {
        lemma_run_prefix(l, steps, i + 1, n, p);
    }
}

impl<'t> LexedStr<'t> {
    /// Sends the tree-building events of the parser's `output` to `sink`, with the
    /// trivia put back: trivia before a token go before it, leading trivia of a
    /// node go inside it as far as they attach to it, and the trivia after a node
    /// go after its end. Returns whether every token was used.
    pub fn intersperse_trivia<'s>(&'s self, output: &'s [Step], sink: &mut Vec<StrStep<'s>>) -> (r: bool)
        requires
            self.wf(),
            build(*self, output@, events(old(sink)@)) is Some,
        ensures
            events(final(sink)@) == build(*self, output@, events(old(sink)@))->0.out,
            r == (build(*self, output@, events(old(sink)@))->0.pos == self.token_count()),
    {
        let ghost p0 = Progress { state: State::PendingEnter, pos: 0, out: events(sink@) };
        let mut builder = Builder { lexed: self, pos: 0, state: State::PendingEnter };
        let mut i: usize = 0;
        while i < output.len()
            invariant
                builder.inv(),
                builder.lexed == self,
                i <= output@.len(),
                run_steps(*self, output@, output@.len() as int, p0) is Some,
                run_steps(*self, output@, i as int, p0) == Some(builder.model(sink@)),
            decreases output@.len() - i,
        {
            proof {
                lemma_run_prefix(*self, output@, i + 1, output@.len() as int, p0);
            }
            match &output[i] {
                Step::Token { kind, n_input_tokens } => {
                    builder.token(sink, *kind, *n_input_tokens);
                },
                Step::Enter { kind } => {
                    builder.enter(sink, *kind);
                },
                Step::Exit => {
                    builder.exit(sink);
                },
                Step::Error { msg } => {
                    let text_pos = builder.lexed.text_start(builder.pos);
                    let ghost before = sink@;
                    sink.push(StrStep::Error { msg: msg.as_str(), pos: text_pos });
                    proof {
                        assert(events(sink@) =~= events(before).push(Event::Error { msg: msg@, pos: text_pos as int }));
                    }
                },
            }
            i += 1;
        }
        let st = builder.state;
        builder.state = State::Normal;
        match st {
            State::PendingExit => {
                builder.eat_trivias(sink);
                let ghost before = sink@;
                sink.push(StrStep::Exit);
                proof {
                    assert(events(sink@) =~= events(before).push(Event::Exit));
                }
            },
            _ => {},
        }
        builder.pos == builder.lexed.len()
    }
}

proof fn lemma_token_text_push(out: Seq<Event>, e: Event)
    ensures
        token_text(out.push(e)) == (match e {
            Event::Token { text, .. } => token_text(out) + text,
            _ => token_text(out),
        }),
{
    assert(out.push(e).drop_last() =~= out);
}

/// The joined token texts of `p` are those of `o` followed by the text of the raw
/// tokens before `p.pos`.
spec fn text_kept(l: LexedStr, o: Seq<Event>, p: Progress) -> bool {
    &&& 0 <= p.pos <= l.token_count()
    &&& token_text(p.out) == token_text(o) + l.piece(0, p.pos)
}

proof fn lemma_emit_each_text(l: LexedStr, o: Seq<Event>, p: Progress, n: nat)
    requires
        l.wf(),
        text_kept(l, o, p),
        p.pos + n <= l.token_count(),
    ensures
        text_kept(l, o, emit_each(l, p, n)),
    decreases n,
{
    if n > 0 {
        lemma_emit_each_text(l, o, p, (n - 1) as nat);
        let q = emit_each(l, p, (n - 1) as nat);
        lemma_emit_each(l, p, (n - 1) as nat);
        lemma_token_text_push(q.out, Event::Token { kind: l.kinds()[q.pos], text: l.piece(q.pos, q.pos + 1) });
        lemma_piece_concat(l, 0, q.pos, q.pos + 1);
        assert(token_text(o) + l.piece(0, q.pos) + l.piece(q.pos, q.pos + 1) =~= token_text(o) + l.piece(0, q.pos + 1));
    }
}

proof fn lemma_close_pending_text(l: LexedStr, o: Seq<Event>, p: Progress)
    requires
        text_kept(l, o, p),
    ensures
        text_kept(l, o, close_pending(p)),
{
    if p.state == State::PendingExit {
        lemma_token_text_push(p.out, Event::Exit);
    }
}

proof fn lemma_step_text(l: LexedStr, o: Seq<Event>, p: Progress, s: Step)
    requires
        l.wf(),
        text_kept(l, o, p),
        do_step(l, p, s) is Some,
    ensures
        text_kept(l, o, do_step(l, p, s)->0),
{
    match s {
        Step::Token { kind, n_input_tokens } => {
            let q0 = close_pending(p);
            lemma_close_pending_text(l, o, p);
            lemma_trivia_run_bound(l, q0.pos);
            lemma_emit_each_text(l, o, q0, trivia_run(l, q0.pos));
            lemma_emit_each(l, q0, trivia_run(l, q0.pos));
            let q = eat_trivias(l, q0);
            let n = n_input_tokens as nat;
            lemma_token_text_push(q.out, Event::Token { kind, text: l.piece(q.pos, q.pos + n) });
            lemma_piece_concat(l, 0, q.pos, q.pos + n);
            assert(token_text(o) + l.piece(0, q.pos) + l.piece(q.pos, q.pos + n) =~= token_text(o) + l.piece(0, q.pos + n));
        },
        Step::Enter { kind } => {
            if p.state == State::PendingEnter {
                lemma_token_text_push(p.out, Event::Enter { kind });
            } else {
                let q = close_pending(p);
                lemma_close_pending_text(l, o, p);
                let nt = trivia_run(l, q.pos);
                lemma_trivia_run_bound(l, q.pos);
                let ts = leading_trivias(l, q.pos, nt);
                lemma_attached_bound(ts, 0, 0);
                let na = attached_trivias(ts, 0, 0);
                lemma_emit_each_text(l, o, q, (nt - na) as nat);
                lemma_emit_each(l, q, (nt - na) as nat);
                let q2 = emit_each(l, q, (nt - na) as nat);
                let q3 = Progress { state: q2.state, pos: q2.pos, out: q2.out.push(Event::Enter { kind }) };
                lemma_token_text_push(q2.out, Event::Enter { kind });
                lemma_emit_each_text(l, o, q3, na);
            }
        },
        Step::Exit => {
            if p.state == State::PendingExit {
                lemma_token_text_push(p.out, Event::Exit);
            }
        },
        Step::Error { msg } => {
            lemma_token_text_push(p.out, Event::Error { msg: msg@, pos: l.starts()[p.pos] as int });
        },
    }
}

proof fn lemma_run_text(l: LexedStr, steps: Seq<Step>, n: int, p: Progress)
    requires
        l.wf(),
        text_kept(l, p.out, p),
        run_steps(l, steps, n, p) is Some,
    ensures
        text_kept(l, p.out, run_steps(l, steps, n, p)->0),
    decreases n,
{
    if n > 0 {
        lemma_run_text(l, steps, n - 1, p);
        lemma_step_text(l, p.out, run_steps(l, steps, n - 1, p)->0, steps[n - 1]);
    }
}

/// The token events of a build carry the lexed text, each raw token once and in
/// order: joined, their texts are the text of the raw tokens up to the position
/// the build ends at (the whole text of the tokens when every token was used).
pub proof fn lemma_build_keeps_text(l: LexedStr, steps: Seq<Step>, out: Seq<Event>)
    requires
        l.wf(),
        build(l, steps, out) is Some,
    ensures
        0 <= build(l, steps, out)->0.pos <= l.token_count(),
        token_text(build(l, steps, out)->0.out) == token_text(out) + l.piece(
            0,
            build(l, steps, out)->0.pos,
        ),
{
    let p0 = Progress { state: State::PendingEnter, pos: 0, out };
    assert(l.piece(0, 0) =~= Seq::<char>::empty());
    assert(token_text(out) + l.piece(0, 0) =~= token_text(out));
    lemma_run_text(l, steps, steps.len() as int, p0);
    let q = run_steps(l, steps, steps.len() as int, p0)->0;
    let q1 = Progress { state: State::Normal, pos: q.pos, out: q.out };
    lemma_trivia_run_bound(l, q1.pos);
    lemma_emit_each_text(l, out, q1, trivia_run(l, q1.pos));
    let r = eat_trivias(l, q1);
    lemma_token_text_push(r.out, Event::Exit);
}

/// Number of node starts (`enter`) or node ends (`!enter`) among the events.
pub open spec fn node_events(out: Seq<Event>, enter: bool) -> nat
    decreases out.len(),
{
    if out.len() == 0 {
        0
    } else {
        node_events(out.drop_last(), enter) + if (enter && out.last() is Enter) || (!enter
            && out.last() is Exit) {
            1nat
        } else {
            0nat
        }
    }
}

/// Number of node starts (`enter`) or node ends (`!enter`) among the first `n` steps.
pub open spec fn node_steps(steps: Seq<Step>, n: int, enter: bool) -> nat
    decreases n,
{
    if n <= 0 {
        0
    } else {
        node_steps(steps, n - 1, enter) + if (enter && steps[n - 1] is Enter) || (!enter
            && steps[n - 1] is Exit) {
            1nat
        } else {
            0nat
        }
    }
}

proof fn lemma_node_events_push(out: Seq<Event>, e: Event, enter: bool)
    ensures
        node_events(out.push(e), enter) == node_events(out, enter) + if (enter && e is Enter) || (
        !enter && e is Exit) {
            1nat
        } else {
            0nat
        },
{
    assert(out.push(e).drop_last() =~= out);
}

proof fn lemma_emit_each_nodes(l: LexedStr, p: Progress, n: nat)
    ensures
        node_events(emit_each(l, p, n).out, true) == node_events(p.out, true),
        node_events(emit_each(l, p, n).out, false) == node_events(p.out, false),
    decreases n,
{
    if n > 0 {
        lemma_emit_each_nodes(l, p, (n - 1) as nat);
        let q = emit_each(l, p, (n - 1) as nat);
        let e = Event::Token { kind: l.kinds()[q.pos], text: l.piece(q.pos, q.pos + 1) };
        lemma_node_events_push(q.out, e, true);
        lemma_node_events_push(q.out, e, false);
    }
}

/// Node ends sent so far, the pending one counted.
spec fn ends_owed(p: Progress) -> nat {
    node_events(p.out, false) + if p.state == State::PendingExit {
        1nat
    } else {
        0nat
    }
}

proof fn lemma_close_pending_nodes(p: Progress)
    ensures
        node_events(close_pending(p).out, true) == node_events(p.out, true),
        ends_owed(close_pending(p)) == ends_owed(p),
{
    if p.state == State::PendingExit {
        lemma_node_events_push(p.out, Event::Exit, true);
        lemma_node_events_push(p.out, Event::Exit, false);
    }
}

proof fn lemma_step_nodes(l: LexedStr, p: Progress, s: Step)
    requires
        do_step(l, p, s) is Some,
    ensures
        node_events(do_step(l, p, s)->0.out, true) == node_events(p.out, true) + if s is Enter {
            1nat
        } else {
            0nat
        },
        ends_owed(do_step(l, p, s)->0) == ends_owed(p) + if s is Exit {
            1nat
        } else {
            0nat
        },
{
    match s {
        Step::Token { kind, n_input_tokens } => {
            let q0 = close_pending(p);
            lemma_close_pending_nodes(p);
            lemma_emit_each_nodes(l, q0, trivia_run(l, q0.pos));
            lemma_emit_each(l, q0, trivia_run(l, q0.pos));
            let q = eat_trivias(l, q0);
            let n = n_input_tokens as nat;
            let e = Event::Token { kind, text: l.piece(q.pos, q.pos + n) };
            lemma_node_events_push(q.out, e, true);
            lemma_node_events_push(q.out, e, false);
        },
        Step::Enter { kind } => {
            if p.state == State::PendingEnter {
                lemma_node_events_push(p.out, Event::Enter { kind }, true);
                lemma_node_events_push(p.out, Event::Enter { kind }, false);
            } else {
                let q = close_pending(p);
                lemma_close_pending_nodes(p);
                let nt = trivia_run(l, q.pos);
                let na = attached_trivias(leading_trivias(l, q.pos, nt), 0, 0);
                lemma_emit_each_nodes(l, q, (nt - na) as nat);
                lemma_emit_each(l, q, (nt - na) as nat);
                let q2 = emit_each(l, q, (nt - na) as nat);
                let q3 = Progress { state: q2.state, pos: q2.pos, out: q2.out.push(Event::Enter { kind }) };
                lemma_node_events_push(q2.out, Event::Enter { kind }, true);
                lemma_node_events_push(q2.out, Event::Enter { kind }, false);
                lemma_emit_each_nodes(l, q3, na);
                lemma_emit_each(l, q3, na);
            }
        },
        Step::Exit => {
            if p.state == State::PendingExit {
                lemma_node_events_push(p.out, Event::Exit, true);
                lemma_node_events_push(p.out, Event::Exit, false);
            }
        },
        Step::Error { msg } => {
            let e = Event::Error { msg: msg@, pos: l.starts()[p.pos] as int };
            lemma_node_events_push(p.out, e, true);
            lemma_node_events_push(p.out, e, false);
        },
    }
}

proof fn lemma_run_nodes(l: LexedStr, steps: Seq<Step>, n: int, p: Progress)
    requires
        run_steps(l, steps, n, p) is Some,
        p.state == State::PendingEnter,
    ensures
        node_events(run_steps(l, steps, n, p)->0.out, true) == node_events(p.out, true)
            + node_steps(steps, n, true),
        ends_owed(run_steps(l, steps, n, p)->0) == node_events(p.out, false) + node_steps(
            steps,
            n,
            false,
        ),
    decreases n,
{
    if n > 0 {
        lemma_run_nodes(l, steps, n - 1, p);
        lemma_step_nodes(l, run_steps(l, steps, n - 1, p)->0, steps[n - 1]);
    }
}

/// A build sends exactly one node start per start step and one node end per end
/// step of the parser's output, so the tree keeps the parser's nesting.
pub proof fn lemma_build_keeps_nodes(l: LexedStr, steps: Seq<Step>, out: Seq<Event>)
    requires
        build(l, steps, out) is Some,
    ensures
        node_events(build(l, steps, out)->0.out, true) == node_events(out, true) + node_steps(
            steps,
            steps.len() as int,
            true,
        ),
        node_events(build(l, steps, out)->0.out, false) == node_events(out, false) + node_steps(
            steps,
            steps.len() as int,
            false,
        ),
{
    let p0 = Progress { state: State::PendingEnter, pos: 0, out };
    lemma_run_nodes(l, steps, steps.len() as int, p0);
    let q = run_steps(l, steps, steps.len() as int, p0)->0;
    let q1 = Progress { state: State::Normal, pos: q.pos, out: q.out };
    lemma_emit_each_nodes(l, q1, trivia_run(l, q1.pos));
    let r = eat_trivias(l, q1);
    lemma_node_events_push(r.out, Event::Exit, true);
    lemma_node_events_push(r.out, Event::Exit, false);
}


/// Each keyword of the selector and media grammars, read in any case, gets its own
/// contextual kind: `not`, `and`, `or`, `only`, `deep`, `i`, `s`, `n` and `-n`, `of`,
/// `important`, `progid`, `urlprefix`, `valid_custom_prop`; and every name starting
/// with `--` is a custom property.
pub proof fn law_identifier_keywords(s: Seq<char>)
    ensures
        lowercase(s) == seq!['n', 'o', 't'] ==> identifier_context(lowercase(s)) == Some(SyntaxKind::CXID_NOT),
        lowercase(s) == seq!['a', 'n', 'd'] ==> identifier_context(lowercase(s)) == Some(SyntaxKind::CXID_AND),
        lowercase(s) == seq!['o', 'r'] ==> identifier_context(lowercase(s)) == Some(SyntaxKind::CXID_OR),
        lowercase(s) == seq!['o', 'n', 'l', 'y'] ==> identifier_context(lowercase(s)) == Some(SyntaxKind::CXID_ONLY),
        lowercase(s) == seq!['d', 'e', 'e', 'p'] ==> identifier_context(lowercase(s)) == Some(SyntaxKind::CXID_DEEP),
        lowercase(s) == seq!['i'] ==> identifier_context(lowercase(s)) == Some(SyntaxKind::CXID_ATTRIB_I),
        lowercase(s) == seq!['s'] ==> identifier_context(lowercase(s)) == Some(SyntaxKind::CXID_ATTRIB_S),
        lowercase(s) == seq!['n'] || lowercase(s) == seq!['-', 'n'] ==> identifier_context(lowercase(s)) == Some(
            SyntaxKind::CXID_AN_PLUS_B_SYNTAX_AN,
        ),
        lowercase(s) == seq!['o', 'f'] ==> identifier_context(lowercase(s)) == Some(SyntaxKind::CXID_OF),
        lowercase(s) == seq!['i', 'm', 'p', 'o', 'r', 't', 'a', 'n', 't'] ==> identifier_context(lowercase(s)) == Some(
            SyntaxKind::CXID_IMPORTANT,
        ),
        lowercase(s) == seq!['p', 'r', 'o', 'g', 'i', 'd'] ==> identifier_context(lowercase(s)) == Some(
            SyntaxKind::CXID_PROGID,
        ),
        lowercase(s) == seq!['u', 'r', 'l', 'p', 'r', 'e', 'f', 'i', 'x'] ==> identifier_context(lowercase(s)) == Some(
            SyntaxKind::CXID_URLPREFIX,
        ),
        lowercase(s) == seq!['v', 'a', 'l', 'i', 'd', '_', 'c', 'u', 's', 't', 'o', 'm', '_', 'p', 'r', 'o', 'p']
            ==> identifier_context(lowercase(s)) == Some(SyntaxKind::CXID_VALID_CUSTOM_PROP),
        lowercase(s).len() >= 2 && lowercase(s)[0] == '-' && lowercase(s)[1] == '-' ==> identifier_context(
            lowercase(s),
        ) == Some(SyntaxKind::CXID_VALID_CUSTOM_PROP),
{
    let t = lowercase(s);
    if t.len() >= 2 && t[0] == '-' && t[1] == '-' {
        assert(t.subrange(0, 2) =~= seq!['-', '-']);
    }
    if t == seq!['i'] {
        assert(t.len() == 1 && t[0] == 'i');
    }
    if t == seq!['s'] {
        assert(t.len() == 1 && t[0] == 's');
    }
}

/// Each function name of the grammar, read in any case, gets its own contextual kind:
/// `style(`, `url(`, `layer(`, `supports(`.
pub proof fn law_function_keywords(s: Seq<char>)
    ensures
        lowercase(s) == seq!['s', 't', 'y', 'l', 'e', '('] ==> function_context(lowercase(s)) == Some(
            SyntaxKind::CXFUNC_STYLE,
        ),
        lowercase(s) == seq!['u', 'r', 'l', '('] ==> function_context(lowercase(s)) == Some(SyntaxKind::CXFUNC_URL),
        lowercase(s) == seq!['l', 'a', 'y', 'e', 'r', '('] ==> function_context(lowercase(s)) == Some(
            SyntaxKind::CXFUNC_LAYER,
        ),
        lowercase(s) == seq!['s', 'u', 'p', 'p', 'o', 'r', 't', 's', '('] ==> function_context(lowercase(s)) == Some(
            SyntaxKind::CXFUNC_SUPPORTS,
        ),
{
}


/// A hash is a valid hex colour exactly when it is `#` followed by three, four, six or
/// eight hex digits and nothing else.
pub proof fn law_hex_hashes(s: Seq<char>)
    ensures
        s.len() >= 1 && s[0] == '#' && (forall|i: int| 1 <= i < s.len() ==> crate::text::is_hex(#[trigger] s[i]))
            && (s.len() == 4 || s.len() == 5 || s.len() == 7 || s.len() == 9) ==> hash_context(s) == Some(
            SyntaxKind::CXHASH_VALID_HEX,
        ),
        !(s.len() == 4 || s.len() == 5 || s.len() == 7 || s.len() == 9) ==> hash_context(s) is None,
        (exists|i: int| 1 <= i < s.len() && !crate::text::is_hex(#[trigger] s[i])) ==> hash_context(s) is None,
        s.len() >= 1 && s[0] != '#' ==> hash_context(s) is None,
{
    if s.len() >= 1 {
        let d = s.drop_first();
        assert forall|k: int| 0 <= k < d.len() implies d[k] == s[k + 1] by {}
        if exists|i: int| 1 <= i < s.len() && !crate::text::is_hex(#[trigger] s[i]) {
            let i = choose|i: int| 1 <= i < s.len() && !crate::text::is_hex(#[trigger] s[i]);
            assert(d[i - 1] == s[i]);
        }
    }
}

/// A dimension with an unknown unit is the `An` of an `An+B` expression exactly when it
/// is digits followed by `n`.
pub proof fn law_an_dimensions(s: Seq<char>)
    ensures
        s.len() >= 1 && s[s.len() - 1] == 'n' && (forall|j: int| 0 <= j < s.len() - 1 ==> is_digit(#[trigger] s[j]))
            ==> dimension_context(s) == Some(SyntaxKind::CXDIM_AN_PLUS_B),
        s.len() == 0 || s[s.len() - 1] != 'n' ==> dimension_context(s) is None,
        (exists|j: int| 0 <= j < s.len() - 1 && !is_digit(#[trigger] s[j])) ==> dimension_context(s) is None,
{
}

} // verus!
