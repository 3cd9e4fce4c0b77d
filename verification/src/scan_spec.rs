//! What the scanner reads from a source text, stated over its characters.
//!
//! Positions inside a recognizer are character indices into `s`; the token offsets and
//! the scanner's resulting position are byte offsets (`bp`). A recognizer result of
//! `Undefined` (or `None`) marks a source on which scanning does not complete.
use vstd::prelude::*;
use crate::text::{all_hex, at, bp, blen, cidx, clen, hex_value, is_digit, is_hex, is_ident_char, is_ident_first, is_newline, is_ws, lowercase};
use crate::css_scanner::TokenType;

verus! {

/// The character classes that the scanner skips runs of.
pub enum CharClass {
    Whitespace,
    Digit,
    DigitOrDot,
    Hex,
    Question,
}

pub open spec fn class_has(cls: CharClass, c: char) -> bool {
    match cls {
        CharClass::Whitespace => is_ws(c),
        CharClass::Digit => is_digit(c),
        CharClass::DigitOrDot => is_digit(c) || c == '.',
        CharClass::Hex => is_hex(c),
        CharClass::Question => c == '?',
    }
}

/// Index after the run of `cls` characters that starts at `i`.
pub open spec fn skip_while(s: Seq<char>, i: int, cls: CharClass) -> int
    decreases s.len() - i,
{
    if 0 <= i < s.len() && class_has(cls, s[i]) {
        skip_while(s, i + 1, cls)
    } else {
        i
    }
}

pub open spec fn starts_with(s: Seq<char>, i: int, t: Seq<char>) -> bool {
    0 <= i && i + t.len() <= s.len() && s.subrange(i, i + t.len()) == t
}

/// Index after a comment body that starts at `k`: just past the first `*/` whose `*`
/// lies at or after `k`, or the end of the text when there is none.
pub open spec fn comment_end(s: Seq<char>, k: int, hot: bool) -> int
    decreases s.len() - k,
{
    if !(0 <= k < s.len()) {
        k
    } else if hot && s[k] == '/' {
        k + 1
    } else {
        comment_end(s, k + 1, s[k] == '*')
    }
}

/// Number of hex digits at `j`, at most `m`.
pub open spec fn hex_run(s: Seq<char>, j: int, m: nat) -> nat
    decreases m,
{
    if m > 0 && is_hex(at(s, j)) {
        1 + hex_run(s, j + 1, (m - 1) as nat)
    } else {
        0
    }
}

/// Index after an optional line break (`\r\n`, `\r`, `\n` or form feed) at `k`.
pub open spec fn newline_end(s: Seq<char>, k: int) -> int {
    if is_newline(at(s, k)) {
        if at(s, k) == '\r' && at(s, k + 1) == '\n' {
            k + 2
        } else {
            k + 1
        }
    } else {
        k
    }
}

/// The characters of the line break at `k`.
pub open spec fn newline_text(s: Seq<char>, k: int) -> Seq<char> {
    s.subrange(k, newline_end(s, k))
}

/// What a UTF-16 code unit decodes to on its own: a surrogate gives nothing.
pub open spec fn decode_unit(u: nat) -> Seq<char> {
    if 0xD800 <= u <= 0xDFFF {
        seq![]
    } else {
        seq![u as char]
    }
}

pub enum EscOut {
    /// the escape runs past the end of the text
    Undefined,
    /// no escape; the index where reading stopped
    NoMatch(int),
    /// an escape ending at the index, with the characters it stands for
    Match(int, Seq<char>),
}

/// A backslash escape at `i`. Up to six hex digits give one character (the code unit
/// taken modulo 2^16) followed by an optional space, tab or line break; any other
/// character but a line break stands for itself; a line break is taken only when `nl`,
/// otherwise reading stops after the backslash.
pub open spec fn escape(s: Seq<char>, i: int, nl: bool) -> EscOut {
    if at(s, i) != '\\' {
        EscOut::NoMatch(i)
    } else {
        let j = i + 1;
        let h = hex_run(s, j, 6);
        if h > 0 {
            let out = decode_unit(hex_value(s.subrange(j, j + h)) % 0x10000);
            let k = j + h;
            if at(s, k) == ' ' || at(s, k) == '\t' {
                EscOut::Match(k + 1, out)
            } else {
                EscOut::Match(newline_end(s, k), out)
            }
        } else if !is_newline(at(s, j)) {
            if j >= s.len() {
                EscOut::Undefined
            } else {
                EscOut::Match(j + 1, seq![s[j]])
            }
        } else if nl {
            EscOut::Match(newline_end(s, j), newline_text(s, j))
        } else {
            EscOut::NoMatch(j)
        }
    }
}

/// The loops of the scanner: a run of plain characters or escapes.
pub enum LoopKind {
    /// characters of a name
    Name,
    /// characters of an unquoted string
    Unquoted,
    /// characters of a string closed by the given quote
    Quoted(char),
}

pub open spec fn is_unquoted_char(c: char) -> bool {
    c != '\0' && c != '\\' && c != '\'' && c != '"' && c != '(' && c != ')' && !is_ws(c)
}

pub open spec fn is_string_char(c: char, q: char) -> bool {
    c != '\0' && c != q && c != '\\' && !is_newline(c)
}

pub open spec fn loop_char(kind: LoopKind, c: char) -> bool {
    match kind {
        LoopKind::Name => is_ident_char(c),
        LoopKind::Unquoted => is_unquoted_char(c),
        LoopKind::Quoted(q) => is_string_char(c, q),
    }
}

pub open spec fn loop_nl(kind: LoopKind) -> bool {
    kind is Quoted
}

pub enum LoopOut {
    Undefined,
    /// end index, characters read, whether anything was taken
    Done(int, Seq<char>, bool),
}

pub proof fn lemma_escape_bounds(s: Seq<char>, i: int, nl: bool)
    requires
        0 <= i <= s.len(),
    ensures
        escape(s, i, nl) matches EscOut::Match(k, _) ==> i + 2 <= k <= s.len(),
        escape(s, i, nl) matches EscOut::NoMatch(k) ==> i <= k <= i + 1 && k <= s.len(),
{
    if at(s, i) == '\\' {
        let j = i + 1;
        lemma_hex_run_bounds(s, j, 6);
    }
}

pub proof fn lemma_hex_run_bounds(s: Seq<char>, j: int, m: nat)
    requires
        0 <= j,
    ensures
        hex_run(s, j, m) <= m,
        j + hex_run(s, j, m) <= s.len() || hex_run(s, j, m) == 0,
        forall|t: int| j <= t < j + hex_run(s, j, m) ==> is_hex(#[trigger] s[t]) && t < s.len(),
        hex_run(s, j, m) < m ==> !is_hex(at(s, j + hex_run(s, j, m))),
    decreases m,
{
    if m > 0 && is_hex(at(s, j)) {
        lemma_hex_run_bounds(s, j + 1, (m - 1) as nat);
    }
}

/// Reads plain characters and escapes from `k` on.
pub open spec fn read_loop(s: Seq<char>, k: int, kind: LoopKind) -> LoopOut
    decreases s.len() - k,
{
    if 0 <= k < s.len() && loop_char(kind, s[k]) {
        match read_loop(s, k + 1, kind) {
            LoopOut::Done(e, o, _) => LoopOut::Done(e, seq![s[k]] + o, true),
            LoopOut::Undefined => LoopOut::Undefined,
        }
    } else if !(0 <= k <= s.len()) {
        LoopOut::Undefined
    } else {
        match escape(s, k, loop_nl(kind)) {
            EscOut::Undefined => LoopOut::Undefined,
            EscOut::NoMatch(k2) => LoopOut::Done(k2, seq![], false),
            EscOut::Match(k2, o) => {
                proof {
                    lemma_escape_bounds(s, k, loop_nl(kind));
                }
                match read_loop(s, k2, kind) {
                    LoopOut::Done(e, o2, _) => LoopOut::Done(e, o + o2, true),
                    LoopOut::Undefined => LoopOut::Undefined,
                }
            },
        }
    }
}

pub enum IdentOut {
    Undefined,
    Fail,
    Found(int, Seq<char>),
}

pub open spec fn ident_tail(s: Seq<char>, k: int, pre: Seq<char>) -> IdentOut {
    match read_loop(s, k, LoopKind::Name) {
        LoopOut::Undefined => IdentOut::Undefined,
        LoopOut::Done(e, o, _) => IdentOut::Found(e, pre + o),
    }
}

/// An identifier at `i`: an optional `-`, then `-`, a name-start character or an
/// escape, then name characters and escapes.
pub open spec fn ident(s: Seq<char>, i: int) -> IdentOut {
    if at(s, i) == '-' {
        let j = i + 1;
        if at(s, j) == '-' {
            ident_tail(s, j + 1, seq!['-', '-'])
        } else if is_ident_first(at(s, j)) {
            ident_tail(s, j + 1, seq!['-', at(s, j)])
        } else {
            match escape(s, j, false) {
                EscOut::Undefined => IdentOut::Undefined,
                EscOut::Match(k, o) => ident_tail(s, k, seq!['-'] + o),
                EscOut::NoMatch(_) => IdentOut::Fail,
            }
        }
    } else if is_ident_first(at(s, i)) {
        ident_tail(s, i + 1, seq![at(s, i)])
    } else {
        match escape(s, i, false) {
            EscOut::Undefined => IdentOut::Undefined,
            EscOut::Match(k, o) => ident_tail(s, k, o),
            EscOut::NoMatch(_) => IdentOut::Fail,
        }
    }
}

/// A number at `i`: digits with optional `.` parts, or `.` followed by digits.
pub open spec fn number(s: Seq<char>, i: int) -> Option<int> {
    let np: int = if at(s, i) == '.' {
        1
    } else {
        0
    };
    if is_digit(at(s, i + np)) {
        Some(
            skip_while(
                s,
                i + np + 1,
                if np == 0 {
                    CharClass::DigitOrDot
                } else {
                    CharClass::Digit
                },
            ),
        )
    } else {
        None
    }
}

pub open spec fn is_quote(c: char) -> bool {
    c == '\'' || c == '"'
}

/// A quoted string at `i` (whose character is a quote): the quote, what is read up to
/// the closing quote, and that quote when the text has it before a line break or the
/// end. Gives the token type, its text and its end as a byte offset.
#[verifier::opaque]
pub open spec fn string_tok(s: Seq<char>, i: int) -> Option<(TokenType, Seq<char>, int)> {
    let q = at(s, i);
    match read_loop(s, i + 1, LoopKind::Quoted(q)) {
        LoopOut::Undefined => None,
        LoopOut::Done(k, body, _) => if at(s, k) == q {
            Some((TokenType::String, seq![q] + body + seq![q], bp(s, k + 1)))
        } else {
            Some((TokenType::BadString, seq![q] + body, bp(s, k)))
        },
    }
}

pub open spec fn spec_static_token(c: char) -> Option<TokenType> {
    if c == ';' {
        Some(TokenType::SemiColon)
    } else if c == ':' {
        Some(TokenType::Colon)
    } else if c == '{' {
        Some(TokenType::CurlyL)
    } else if c == '}' {
        Some(TokenType::CurlyR)
    } else if c == '[' {
        Some(TokenType::BracketL)
    } else if c == ']' {
        Some(TokenType::BracketR)
    } else if c == '(' {
        Some(TokenType::ParenthesisL)
    } else if c == ')' {
        Some(TokenType::ParenthesisR)
    } else if c == ',' {
        Some(TokenType::Comma)
    } else {
        None
    }
}

pub open spec fn spec_unit_table(t: Seq<char>) -> Option<TokenType> {
    if t =~= seq!['e', 'm'] {
        Some(TokenType::EMS)
    } else if t =~= seq!['e', 'x'] {
        Some(TokenType::EXS)
    } else if t =~= seq!['p', 'x'] || t =~= seq!['c', 'm'] || t =~= seq!['m', 'm'] || t =~= seq![
        'i',
        'n',
    ] || t =~= seq!['p', 't'] || t =~= seq!['p', 'c'] {
        Some(TokenType::Length)
    } else if t =~= seq!['d', 'e', 'g'] || t =~= seq!['r', 'a', 'd'] || t =~= seq![
        'g',
        'r',
        'a',
        'd',
    ] {
        Some(TokenType::Angle)
    } else if t =~= seq!['m', 's'] || t =~= seq!['s'] {
        Some(TokenType::Time)
    } else if t =~= seq!['h', 'z'] || t =~= seq!['k', 'h', 'z'] {
        Some(TokenType::Freq)
    } else if t =~= seq!['%'] || t =~= seq!['f', 'r'] {
        Some(TokenType::Percentage)
    } else if t =~= seq!['d', 'p', 'i'] || t =~= seq!['d', 'p', 'c', 'm'] {
        Some(TokenType::Resolution)
    } else if t =~= seq!['c', 'q', 'w'] || t =~= seq!['c', 'q', 'h'] || t =~= seq!['c', 'q', 'i']
        || t =~= seq!['c', 'q', 'b'] || t =~= seq!['c', 'q', 'm', 'i', 'n'] || t =~= seq![
        'c',
        'q',
        'm',
        'a',
        'x',
    ] {
        Some(TokenType::ContainerQueryLength)
    } else {
        None
    }
}

/// The two-character attribute operators `~=`, `|=`, `*=`, `^=` and `$=`, by their
/// first character.
pub open spec fn spec_operator(c: char) -> Option<TokenType> {
    if c == '~' {
        Some(TokenType::Includes)
    } else if c == '|' {
        Some(TokenType::Dashmatch)
    } else if c == '*' {
        Some(TokenType::SubstringOperator)
    } else if c == '^' {
        Some(TokenType::PrefixOperator)
    } else if c == '$' {
        Some(TokenType::SuffixOperator)
    } else {
        None
    }
}

/// A token as the scanner produces it: type, text, and the byte offsets where it starts
/// and where the scanner stands after it (its length is their difference).
pub struct ScanOut {
    pub tt: TokenType,
    pub text: Seq<char>,
    pub offset: int,
    pub end: int,
}

pub open spec fn out(s: Seq<char>, tt: TokenType, text: Seq<char>, i: int, j: int) -> ScanOut {
    ScanOut { tt, text, offset: bp(s, i), end: bp(s, j) }
}

/// The token spanning characters `i..j`, its text being those characters.
pub open spec fn out_raw(s: Seq<char>, tt: TokenType, i: int, j: int) -> ScanOut {
    out(s, tt, s.subrange(i, j), i, j)
}

pub open spec fn charset_kw() -> Seq<char> {
    seq!['@', 'c', 'h', 'a', 'r', 's', 'e', 't']
}

/// `@` or `#` followed by a name at `i`.
#[verifier::opaque]
pub open spec fn scan_prefixed(s: Seq<char>, i: int, named: TokenType) -> Option<ScanOut> {
    match read_loop(s, i + 1, LoopKind::Name) {
        LoopOut::Undefined => None,
        LoopOut::Done(e, o, matched) => if matched {
            let t = seq![s[i]] + o;
            Some(
                out(
                    s,
                    if named is AtKeyword && t =~= charset_kw() {
                        TokenType::Charset
                    } else {
                        named
                    },
                    t,
                    i,
                    e,
                ),
            )
        } else {
            Some(out_raw(s, TokenType::Delim, i, e))
        },
    }
}

/// A number at `i` ending at `j`, followed by `%`, a unit, or nothing.
#[verifier::opaque]
pub open spec fn scan_numeric(s: Seq<char>, i: int, j: int) -> Option<ScanOut> {
    if at(s, j) == '%' {
        Some(out_raw(s, TokenType::Percentage, i, j + 1))
    } else {
        match ident(s, j) {
            IdentOut::Undefined => None,
            IdentOut::Fail => Some(out_raw(s, TokenType::Num, i, j)),
            IdentOut::Found(e, c) => {
                let tt = match spec_unit_table(lowercase(s.subrange(j, e))) {
                    Some(t) => t,
                    None => TokenType::Dimension,
                };
                Some(out(s, tt, s.subrange(i, j) + c, i, e))
            },
        }
    }
}

/// The tokens tried after identifiers, in order.
pub open spec fn scan_rest(s: Seq<char>, i: int) -> Option<ScanOut> {
    let c = at(s, i);
    if c == '@' {
        scan_prefixed(s, i, TokenType::AtKeyword)
    } else if c == '#' {
        scan_prefixed(s, i, TokenType::Hash)
    } else if c == '!' {
        Some(out_raw(s, TokenType::Exclamation, i, i + 1))
    } else if number(s, i) is Some {
        scan_numeric(s, i, number(s, i)->0)
    } else if is_quote(c) {
        match string_tok(s, i) {
            None => None,
            Some((tt, t, e)) => Some(ScanOut { tt, text: t, offset: bp(s, i), end: e }),
        }
    } else if spec_static_token(c) is Some {
        Some(out_raw(s, spec_static_token(c)->0, i, i + 1))
    } else if spec_operator(c) is Some && at(s, i + 1) == '=' {
        Some(out_raw(s, spec_operator(c)->0, i, i + 2))
    } else {
        Some(out_raw(s, TokenType::Delim, i, i + 1))
    }
}

/// A token at `i`, which is before the end of the text and not whitespace or a comment.
pub open spec fn scan_next(s: Seq<char>, i: int) -> Option<ScanOut> {
    if starts_with(s, i, seq!['<', '!', '-', '-']) {
        Some(out_raw(s, TokenType::CDO, i, i + 4))
    } else if starts_with(s, i, seq!['-', '-', '>']) {
        Some(out_raw(s, TokenType::CDC, i, i + 3))
    } else {
        match ident(s, i) {
            IdentOut::Undefined => None,
            IdentOut::Found(e, c) => Some(out(s, TokenType::Ident, c, i, e)),
            IdentOut::Fail => scan_rest(s, i),
        }
    }
}

pub open spec fn starts_comment(s: Seq<char>, i: int) -> bool {
    starts_with(s, i, seq!['/', '*'])
}

pub enum TriviaOut {
    /// a whitespace or comment token that is not ignored, spanning the indices
    Token(TokenType, int, int),
    /// no trivia left at the index
    Rest(int),
}

pub proof fn lemma_skip_bounds(s: Seq<char>, i: int, cls: CharClass)
    requires
        0 <= i <= s.len(),
    ensures
        i <= skip_while(s, i, cls) <= s.len(),
        forall|t: int| i <= t < skip_while(s, i, cls) ==> class_has(cls, #[trigger] s[t]),
        skip_while(s, i, cls) < s.len() ==> !class_has(cls, s[skip_while(s, i, cls)]),
    decreases s.len() - i,
{
    if 0 <= i < s.len() && class_has(cls, s[i]) {
        lemma_skip_bounds(s, i + 1, cls);
    }
}

pub proof fn lemma_comment_bounds(s: Seq<char>, k: int, hot: bool)
    requires
        0 <= k <= s.len(),
    ensures
        k <= comment_end(s, k, hot) <= s.len(),
    decreases s.len() - k,
{
    if 0 <= k < s.len() && !(hot && s[k] == '/') {
        lemma_comment_bounds(s, k + 1, s[k] == '*');
    }
}

/// Whitespace and comments at `i`, skipped while ignored.
pub open spec fn trivia(s: Seq<char>, ignore_ws: bool, ignore_comments: bool, i: int) -> TriviaOut
    decreases s.len() - i,
{
    if !(0 <= i <= s.len()) {
        TriviaOut::Rest(i)
    } else {
        let j = skip_while(s, i, CharClass::Whitespace);
        proof {
            lemma_skip_bounds(s, i, CharClass::Whitespace);
        }
        if j > i {
            if !ignore_ws {
                TriviaOut::Token(TokenType::Whitespace, i, j)
            } else {
                trivia(s, ignore_ws, ignore_comments, j)
            }
        } else if starts_comment(s, i) {
            let e = comment_end(s, i + 2, false);
            proof {
                lemma_comment_bounds(s, i + 2, false);
            }
            if !ignore_comments {
                TriviaOut::Token(TokenType::Comment, i, e)
            } else {
                trivia(s, ignore_ws, ignore_comments, e)
            }
        } else {
            TriviaOut::Rest(i)
        }
    }
}

/// The next token from character `i`.
pub open spec fn scan_from(s: Seq<char>, ignore_ws: bool, ignore_comments: bool, i: int) -> Option<
    ScanOut,
> {
    match trivia(s, ignore_ws, ignore_comments, i) {
        TriviaOut::Token(tt, a, c) => Some(out_raw(s, tt, a, c)),
        TriviaOut::Rest(j) => if j >= s.len() {
            Some(out_raw(s, TokenType::EOF, j, j))
        } else {
            scan_next(s, j)
        },
    }
}

/// The next token of `s` from byte offset `b`; `None` when scanning from there does
/// not complete.
pub open spec fn spec_scan(s: Seq<char>, ignore_ws: bool, ignore_comments: bool, b: int) -> Option<
    ScanOut,
> {
    match cidx(s, b) {
        None => None,
        Some(i) => scan_from(s, ignore_ws, ignore_comments, i),
    }
}

/// An unquoted string (as in `url(...)`) at `i`: `Some((end, text))` when anything was
/// read; otherwise `None` together with where reading stopped.
pub open spec fn unquoted(s: Seq<char>, i: int) -> LoopOut {
    read_loop(s, i, LoopKind::Unquoted)
}

/// A unicode range at `i` (after its `u`): `+`, one to six hex digits or `?`s, then
/// optionally `-` and one to six hex digits. Gives its end.
pub open spec fn unicode_range(s: Seq<char>, i: int) -> Option<int> {
    if at(s, i) != '+' {
        None
    } else {
        let h = skip_while(s, i + 1, CharClass::Hex);
        let q = skip_while(s, h, CharClass::Question);
        let n = q - (i + 1);
        if 1 <= n <= 6 {
            if at(s, q) == '-' {
                let d = skip_while(s, q + 1, CharClass::Hex);
                if 1 <= d - (q + 1) <= 6 {
                    Some(d)
                } else {
                    None
                }
            } else {
                Some(q)
            }
        } else {
            None
        }
    }
}


/// A run that ends where the class stops is the one `skip_while` finds.
pub proof fn lemma_skip_exact(s: Seq<char>, i: int, j: int, cls: CharClass)
    requires
        0 <= i <= j <= s.len(),
        forall|k: int| i <= k < j ==> class_has(cls, #[trigger] s[k]),
        j < s.len() ==> !class_has(cls, s[j]),
    ensures
        skip_while(s, i, cls) == j,
    decreases j - i,
{
    if i < j {
        assert(class_has(cls, s[i]));
        lemma_skip_exact(s, i + 1, j, cls);
    }
}

/// Characters below 0x80 take one byte each.
pub proof fn lemma_bp_ascii(s: Seq<char>, i: int, j: int)
    requires
        0 <= i <= j <= s.len(),
        forall|k: int| i <= k < j ==> (#[trigger] s[k] as u32) < 0x80,
    ensures
        bp(s, j) == bp(s, i) + (j - i),
    decreases j - i,
{
    if i < j {
        lemma_bp_ascii(s, i, j - 1);
        assert((s[j - 1] as u32) < 0x80);
        crate::text::lemma_bp_step(s, j - 1);
    }
}

/// The escape, loop and identifier recognizers stay within the text.
pub proof fn lemma_read_loop_bounds(s: Seq<char>, k: int, kind: LoopKind)
    requires
        0 <= k <= s.len(),
    ensures
        read_loop(s, k, kind) matches LoopOut::Done(e, _, _) ==> k <= e <= s.len(),
    decreases s.len() - k,
{
    if 0 <= k < s.len() && loop_char(kind, s[k]) {
        lemma_read_loop_bounds(s, k + 1, kind);
    } else {
        lemma_escape_bounds(s, k, loop_nl(kind));
        if let EscOut::Match(k2, _) = escape(s, k, loop_nl(kind)) {
            lemma_read_loop_bounds(s, k2, kind);
        }
    }
}

/// A string token ends after its opening quote.
pub proof fn lemma_string_tok_end(s: Seq<char>, i: int)
    requires
        0 <= i < s.len(),
        is_quote(s[i]),
        string_tok(s, i) is Some,
    ensures
        string_tok(s, i) matches Some((_, _, e)) && e > bp(s, i),
{
    reveal(string_tok);
    let q = at(s, i);
    lemma_read_loop_bounds(s, i + 1, LoopKind::Quoted(q));
    let k = read_loop(s, i + 1, LoopKind::Quoted(q))->Done_0;
    crate::text::lemma_bp_mono(s, i + 1, k);
    crate::text::lemma_bp_mono(s, i, i + 1);
    if at(s, k) == q {
        assert(k < s.len());
        crate::text::lemma_bp_mono(s, k, k + 1);
    }
}

pub proof fn lemma_ident_bounds(s: Seq<char>, i: int)
    requires
        0 <= i <= s.len(),
    ensures
        ident(s, i) matches IdentOut::Found(e, _) ==> i < e <= s.len(),
{
    lemma_escape_bounds(s, i, false);
    if i + 1 <= s.len() {
        lemma_escape_bounds(s, i + 1, false);
    }
    if at(s, i) == '-' {
        let j = i + 1;
        if at(s, j) == '-' {
            lemma_read_loop_bounds(s, j + 1, LoopKind::Name);
        } else if is_ident_first(at(s, j)) {
            lemma_read_loop_bounds(s, j + 1, LoopKind::Name);
        } else if let EscOut::Match(k, _) = escape(s, j, false) {
            lemma_read_loop_bounds(s, k, LoopKind::Name);
        }
    } else if is_ident_first(at(s, i)) {
        lemma_read_loop_bounds(s, i + 1, LoopKind::Name);
    } else if let EscOut::Match(k, _) = escape(s, i, false) {
        lemma_read_loop_bounds(s, k, LoopKind::Name);
    }
}

pub proof fn lemma_number_bounds(s: Seq<char>, i: int)
    requires
        0 <= i <= s.len(),
    ensures
        number(s, i) matches Some(j) ==> i < j <= s.len(),
{
    let np: int = if at(s, i) == '.' {
        1
    } else {
        0
    };
    if is_digit(at(s, i + np)) {
        lemma_skip_bounds(
            s,
            i + np + 1,
            if np == 0 {
                CharClass::DigitOrDot
            } else {
                CharClass::Digit
            },
        );
    }
}

pub proof fn lemma_unicode_range_bounds(s: Seq<char>, i: int)
    requires
        0 <= i <= s.len(),
    ensures
        unicode_range(s, i) matches Some(e) ==> i < e <= s.len(),
{
    if at(s, i) == '+' {
        lemma_skip_bounds(s, i + 1, CharClass::Hex);
        let h = skip_while(s, i + 1, CharClass::Hex);
        lemma_skip_bounds(s, h, CharClass::Question);
        let q = skip_while(s, h, CharClass::Question);
        if at(s, q) == '-' {
            lemma_skip_bounds(s, q + 1, CharClass::Hex);
        }
    }
}
proof fn lemma_trivia_bounds(s: Seq<char>, iw: bool, ic: bool, i: int)
    requires
        0 <= i <= s.len(),
    ensures
        trivia(s, iw, ic, i) matches TriviaOut::Token(_, a, c) ==> i <= a < c <= s.len(),
        trivia(s, iw, ic, i) matches TriviaOut::Rest(j) ==> i <= j <= s.len(),
        trivia(s, iw, ic, i) matches TriviaOut::Token(tt, _, _) ==> (tt is Whitespace || tt is Comment),
    decreases s.len() - i,
{
    let j = skip_while(s, i, CharClass::Whitespace);
    lemma_skip_bounds(s, i, CharClass::Whitespace);
    if j > i {
        if iw {
            lemma_trivia_bounds(s, iw, ic, j);
        }
    } else if starts_comment(s, i) {
        lemma_comment_bounds(s, i + 2, false);
        let e = comment_end(s, i + 2, false);
        if ic {
            lemma_trivia_bounds(s, iw, ic, e);
        }
    }
}

proof fn lemma_scan_next_progress(s: Seq<char>, i: int)
    requires
        0 <= i < s.len(),
        scan_next(s, i) is Some,
    ensures
        scan_next(s, i)->0.offset == bp(s, i),
        scan_next(s, i)->0.offset < scan_next(s, i)->0.end,
        !(scan_next(s, i)->0.tt is EOF),
{
    crate::text::lemma_bp_mono(s, i, s.len() as int);
    if starts_with(s, i, seq!['<', '!', '-', '-']) {
        crate::text::lemma_bp_mono(s, i, i + 4);
    } else if starts_with(s, i, seq!['-', '-', '>']) {
        crate::text::lemma_bp_mono(s, i, i + 3);
    } else {
        lemma_ident_bounds(s, i);
        match ident(s, i) {
            IdentOut::Found(e, _) => {
                crate::text::lemma_bp_mono(s, i, e);
            },
            IdentOut::Fail => {
                lemma_scan_rest_progress(s, i);
            },
            IdentOut::Undefined => {},
        }
    }
}

proof fn lemma_scan_rest_progress(s: Seq<char>, i: int)
    requires
        0 <= i < s.len(),
        scan_rest(s, i) is Some,
    ensures
        scan_rest(s, i)->0.offset == bp(s, i),
        scan_rest(s, i)->0.offset < scan_rest(s, i)->0.end,
        !(scan_rest(s, i)->0.tt is EOF),
{
    let c = at(s, i);
    if c == '@' || c == '#' {
        let named = if c == '@' {
            TokenType::AtKeyword
        } else {
            TokenType::Hash
        };
        reveal(scan_prefixed);
        lemma_read_loop_bounds(s, i + 1, LoopKind::Name);
        let e = read_loop(s, i + 1, LoopKind::Name)->Done_0;
        crate::text::lemma_bp_mono(s, i, e);
    } else if c == '!' {
        crate::text::lemma_bp_mono(s, i, i + 1);
    } else if number(s, i) is Some {
        let j = number(s, i)->0;
        lemma_number_bounds(s, i);
        reveal(scan_numeric);
        if at(s, j) == '%' {
            crate::text::lemma_bp_mono(s, i, j + 1);
        } else {
            lemma_ident_bounds(s, j);
            match ident(s, j) {
                IdentOut::Found(e, _) => {
                    crate::text::lemma_bp_mono(s, i, e);
                },
                _ => {
                    crate::text::lemma_bp_mono(s, i, j);
                },
            }
        }
    } else if is_quote(c) {
        lemma_string_tok_end(s, i);
        reveal(string_tok);
    } else if spec_static_token(c) is Some {
        crate::text::lemma_bp_mono(s, i, i + 1);
    } else if spec_operator(c) is Some && at(s, i + 1) == '=' {
        crate::text::lemma_bp_mono(s, i, i + 2);
    } else {
        crate::text::lemma_bp_mono(s, i, i + 1);
    }
}

/// Scanning never stands still: a token other than the end of the text starts at
/// or after the offset scanned from and ends after it starts, and the end of the
/// text is reported, empty, exactly at the end. Scanning a text token by token
/// therefore reaches its end.
pub proof fn lemma_scan_progress(s: Seq<char>, ignore_ws: bool, ignore_comments: bool, b: int)
    requires
        spec_scan(s, ignore_ws, ignore_comments, b) is Some,
    ensures
        b <= spec_scan(s, ignore_ws, ignore_comments, b)->0.offset,
        spec_scan(s, ignore_ws, ignore_comments, b)->0.tt is EOF ==> spec_scan(
            s,
            ignore_ws,
            ignore_comments,
            b,
        )->0.offset == blen(s) && spec_scan(s, ignore_ws, ignore_comments, b)->0.end == blen(s),
        !(spec_scan(s, ignore_ws, ignore_comments, b)->0.tt is EOF) ==> spec_scan(
            s,
            ignore_ws,
            ignore_comments,
            b,
        )->0.offset < spec_scan(s, ignore_ws, ignore_comments, b)->0.end,
{
    let i = cidx(s, b)->0;
    crate::text::lemma_cidx_some(s, b);
    lemma_trivia_bounds(s, ignore_ws, ignore_comments, i);
    match trivia(s, ignore_ws, ignore_comments, i) {
        TriviaOut::Token(tt, a, c) => {
            crate::text::lemma_bp_mono(s, i, a);
            crate::text::lemma_bp_mono(s, a, c);
        },
        TriviaOut::Rest(j) => {
            crate::text::lemma_bp_mono(s, i, j);
            if j >= s.len() {
                crate::text::lemma_bp_full(s);
            } else {
                lemma_scan_next_progress(s, j);
            }
        },
    }
}

/// The token types whose text is always the source text they span: trivia,
/// markers, punctuation, operators, plain numbers and single characters.
pub open spec fn raw_text_type(tt: TokenType) -> bool {
    match tt {
        TokenType::Whitespace | TokenType::Comment | TokenType::CDO | TokenType::CDC
        | TokenType::Exclamation | TokenType::Num | TokenType::Delim | TokenType::SemiColon
        | TokenType::Colon | TokenType::CurlyL | TokenType::CurlyR | TokenType::BracketL
        | TokenType::BracketR | TokenType::ParenthesisL | TokenType::ParenthesisR
        | TokenType::Comma | TokenType::Includes | TokenType::Dashmatch
        | TokenType::SubstringOperator | TokenType::PrefixOperator | TokenType::SuffixOperator
        | TokenType::EOF => true,
        _ => false,
    }
}

/// The source text between two byte offsets.
pub open spec fn source_between(s: Seq<char>, a: int, b: int) -> Seq<char> {
    s.subrange(cidx(s, a)->0, cidx(s, b)->0)
}

proof fn lemma_out_raw_text(s: Seq<char>, tt: TokenType, i: int, j: int)
    requires
        0 <= i <= j <= s.len(),
    ensures
        out_raw(s, tt, i, j).text == source_between(s, out_raw(s, tt, i, j).offset, out_raw(s, tt, i, j).end),
{
    crate::text::lemma_cidx_bp(s, i);
    crate::text::lemma_cidx_bp(s, j);
}

proof fn lemma_scan_rest_raw(s: Seq<char>, i: int)
    requires
        0 <= i < s.len(),
        scan_rest(s, i) is Some,
        raw_text_type(scan_rest(s, i)->0.tt),
    ensures
        scan_rest(s, i)->0.text == source_between(s, scan_rest(s, i)->0.offset, scan_rest(s, i)->0.end),
{
    let c = at(s, i);
    if c == '@' || c == '#' {
        reveal(scan_prefixed);
        lemma_read_loop_bounds(s, i + 1, LoopKind::Name);
        let e = read_loop(s, i + 1, LoopKind::Name)->Done_0;
        lemma_out_raw_text(s, TokenType::Delim, i, e);
    } else if c == '!' {
        lemma_out_raw_text(s, TokenType::Exclamation, i, i + 1);
    } else if number(s, i) is Some {
        let j = number(s, i)->0;
        lemma_number_bounds(s, i);
        reveal(scan_numeric);
        if at(s, j) != '%' {
            lemma_ident_bounds(s, j);
            if ident(s, j) is Fail {
                lemma_out_raw_text(s, TokenType::Num, i, j);
            }
        }
    } else if is_quote(c) {
        reveal(string_tok);
    } else if spec_static_token(c) is Some {
        lemma_out_raw_text(s, spec_static_token(c)->0, i, i + 1);
    } else if spec_operator(c) is Some && at(s, i + 1) == '=' {
        lemma_out_raw_text(s, spec_operator(c)->0, i, i + 2);
    } else {
        lemma_out_raw_text(s, TokenType::Delim, i, i + 1);
    }
}

/// Tokens of the raw types carry exactly the source text they span; the others
/// (names, strings, dimensions) carry their text with escapes decoded.
pub proof fn lemma_scan_raw_text(s: Seq<char>, ignore_ws: bool, ignore_comments: bool, b: int)
    requires
        spec_scan(s, ignore_ws, ignore_comments, b) is Some,
        raw_text_type(spec_scan(s, ignore_ws, ignore_comments, b)->0.tt),
    ensures
        spec_scan(s, ignore_ws, ignore_comments, b)->0.text == source_between(
            s,
            spec_scan(s, ignore_ws, ignore_comments, b)->0.offset,
            spec_scan(s, ignore_ws, ignore_comments, b)->0.end,
        ),
{
    let i = cidx(s, b)->0;
    crate::text::lemma_cidx_some(s, b);
    lemma_trivia_bounds(s, ignore_ws, ignore_comments, i);
    match trivia(s, ignore_ws, ignore_comments, i) {
        TriviaOut::Token(tt, a, c) => {
            lemma_out_raw_text(s, tt, a, c);
        },
        TriviaOut::Rest(j) => {
            if j >= s.len() {
                lemma_out_raw_text(s, TokenType::EOF, j, j);
            } else if starts_with(s, j, seq!['<', '!', '-', '-']) {
                lemma_out_raw_text(s, TokenType::CDO, j, j + 4);
            } else if starts_with(s, j, seq!['-', '-', '>']) {
                lemma_out_raw_text(s, TokenType::CDC, j, j + 3);
            } else if ident(s, j) is Fail {
                lemma_scan_rest_raw(s, j);
            }
        },
    }
}


/// The text does not end with a backslash, the one place where scanning does not
/// complete (an escape with nothing to escape).
pub open spec fn no_dangling_escape(s: Seq<char>) -> bool {
    !(s.len() > 0 && s[s.len() - 1] == '\\')
}

proof fn lemma_escape_defined(s: Seq<char>, i: int, nl: bool)
    requires
        no_dangling_escape(s),
        0 <= i <= s.len(),
    ensures
        !(escape(s, i, nl) is Undefined),
{
    if at(s, i) == '\\' {
        lemma_hex_run_bounds(s, i + 1, 6);
    }
}

pub proof fn lemma_read_loop_defined(s: Seq<char>, k: int, kind: LoopKind)
    requires
        no_dangling_escape(s),
        0 <= k <= s.len(),
    ensures
        !(read_loop(s, k, kind) is Undefined),
    decreases s.len() - k,
{
    if 0 <= k < s.len() && loop_char(kind, s[k]) {
        lemma_read_loop_defined(s, k + 1, kind);
    } else {
        lemma_escape_defined(s, k, loop_nl(kind));
        lemma_escape_bounds(s, k, loop_nl(kind));
        if let EscOut::Match(k2, _) = escape(s, k, loop_nl(kind)) {
            lemma_read_loop_defined(s, k2, kind);
        }
    }
}

proof fn lemma_ident_defined(s: Seq<char>, i: int)
    requires
        no_dangling_escape(s),
        0 <= i < s.len(),
    ensures
        !(ident(s, i) is Undefined),
{
    let j = i + 1;
    lemma_escape_defined(s, i, false);
    lemma_escape_bounds(s, i, false);
    lemma_escape_defined(s, j, false);
    lemma_escape_bounds(s, j, false);
    if at(s, i) == '-' {
        if at(s, j) == '-' {
            lemma_read_loop_defined(s, j + 1, LoopKind::Name);
        } else if is_ident_first(at(s, j)) {
            lemma_read_loop_defined(s, j + 1, LoopKind::Name);
        } else if let EscOut::Match(k, _) = escape(s, j, false) {
            lemma_read_loop_defined(s, k, LoopKind::Name);
        }
    } else if is_ident_first(at(s, i)) {
        lemma_read_loop_defined(s, i + 1, LoopKind::Name);
    } else if let EscOut::Match(k, _) = escape(s, i, false) {
        lemma_read_loop_defined(s, k, LoopKind::Name);
    }
}

proof fn lemma_scan_rest_defined(s: Seq<char>, i: int)
    requires
        no_dangling_escape(s),
        0 <= i < s.len(),
    ensures
        scan_rest(s, i) is Some,
{
    let c = at(s, i);
    if c == '@' || c == '#' {
        reveal(scan_prefixed);
        lemma_read_loop_defined(s, i + 1, LoopKind::Name);
    } else if c == '!' {
    } else if number(s, i) is Some {
        let j = number(s, i)->0;
        lemma_number_bounds(s, i);
        reveal(scan_numeric);
        if at(s, j) != '%' && j < s.len() {
            lemma_ident_defined(s, j);
        }
    } else if is_quote(c) {
        reveal(string_tok);
        lemma_read_loop_defined(s, i + 1, LoopKind::Quoted(c));
    }
}

/// Scanning from any character boundary of a text that does not end with a backslash
/// completes.
pub proof fn lemma_scan_defined(s: Seq<char>, ignore_ws: bool, ignore_comments: bool, b: int)
    requires
        no_dangling_escape(s),
        cidx(s, b) is Some,
    ensures
        spec_scan(s, ignore_ws, ignore_comments, b) is Some,
{
    let i = cidx(s, b)->0;
    crate::text::lemma_cidx_some(s, b);
    lemma_trivia_bounds(s, ignore_ws, ignore_comments, i);
    if let TriviaOut::Rest(j) = trivia(s, ignore_ws, ignore_comments, i) {
        if j < s.len() {
            lemma_ident_defined(s, j);
            if !(ident(s, j) is Found) {
                lemma_scan_rest_defined(s, j);
            }
        }
    }
}

/// Every token ends on a character boundary, and the end of the text is reported as
/// an empty token there; scanning again from where it leaves off gives it again.
pub proof fn lemma_scan_eof(s: Seq<char>, ignore_ws: bool, ignore_comments: bool, b: int)
    requires
        spec_scan(s, ignore_ws, ignore_comments, b) is Some,
    ensures
        cidx(s, spec_scan(s, ignore_ws, ignore_comments, b)->0.end) is Some,
        spec_scan(s, ignore_ws, ignore_comments, b)->0.tt is EOF ==> spec_scan(
            s,
            ignore_ws,
            ignore_comments,
            b,
        )->0.text.len() == 0 && spec_scan(
            s,
            ignore_ws,
            ignore_comments,
            spec_scan(s, ignore_ws, ignore_comments, b)->0.end,
        ) == spec_scan(s, ignore_ws, ignore_comments, b),
{
    lemma_scan_progress(s, ignore_ws, ignore_comments, b);
    let i = cidx(s, b)->0;
    crate::text::lemma_cidx_some(s, b);
    lemma_trivia_bounds(s, ignore_ws, ignore_comments, i);
    let t = spec_scan(s, ignore_ws, ignore_comments, b)->0;
    match trivia(s, ignore_ws, ignore_comments, i) {
        TriviaOut::Token(tt, a, c) => {
            crate::text::lemma_cidx_bp(s, c);
        },
        TriviaOut::Rest(j) => {
            if j >= s.len() {
                crate::text::lemma_cidx_bp(s, j);
                crate::text::lemma_bp_full(s);
                crate::text::lemma_cidx_bp(s, s.len() as int);
                lemma_skip_bounds(s, s.len() as int, CharClass::Whitespace);
                assert(j == s.len());
                assert(t.end == bp(s, s.len() as int));
                assert(cidx(s, t.end) == Some(s.len() as int));
                assert(!starts_comment(s, s.len() as int));
                assert(trivia(s, ignore_ws, ignore_comments, s.len() as int) == TriviaOut::Rest(
                    s.len() as int,
                ));
                assert(scan_from(s, ignore_ws, ignore_comments, s.len() as int) == Some(t));
            } else {
                lemma_scan_next_end(s, j);
                lemma_scan_next_progress(s, j);
            }
        },
    }
}

/// A read loop that took anything ends after where it started.
pub proof fn lemma_read_loop_taken(s: Seq<char>, k: int, kind: LoopKind)
    requires
        0 <= k <= s.len(),
    ensures
        read_loop(s, k, kind) matches LoopOut::Done(e, _, true) ==> k < e,
    decreases s.len() - k,
{
    if 0 <= k < s.len() && loop_char(kind, s[k]) {
        lemma_read_loop_bounds(s, k + 1, kind);
    } else {
        lemma_escape_bounds(s, k, loop_nl(kind));
        if let EscOut::Match(k2, _) = escape(s, k, loop_nl(kind)) {
            lemma_read_loop_bounds(s, k2, kind);
        }
    }
}

/// Every token starts on a character boundary.
pub proof fn lemma_scan_offset(s: Seq<char>, ignore_ws: bool, ignore_comments: bool, b: int)
    requires
        spec_scan(s, ignore_ws, ignore_comments, b) is Some,
    ensures
        cidx(s, spec_scan(s, ignore_ws, ignore_comments, b)->0.offset) is Some,
{
    let i = cidx(s, b)->0;
    crate::text::lemma_cidx_some(s, b);
    lemma_trivia_bounds(s, ignore_ws, ignore_comments, i);
    match trivia(s, ignore_ws, ignore_comments, i) {
        TriviaOut::Token(tt, a, c) => {
            crate::text::lemma_cidx_bp(s, a);
        },
        TriviaOut::Rest(j) => {
            crate::text::lemma_cidx_bp(s, j);
            if j < s.len() {
                reveal(scan_prefixed);
                reveal(scan_numeric);
                assert(spec_scan(s, ignore_ws, ignore_comments, b)->0.offset == bp(s, j));
            }
        },
    }
}

/// A token other than trivia ends on a character boundary.
proof fn lemma_scan_next_end(s: Seq<char>, i: int)
    requires
        0 <= i < s.len(),
        scan_next(s, i) is Some,
    ensures
        cidx(s, scan_next(s, i)->0.end) is Some,
{
    let c = at(s, i);
    if starts_with(s, i, seq!['<', '!', '-', '-']) {
        crate::text::lemma_cidx_bp(s, i + 4);
    } else if starts_with(s, i, seq!['-', '-', '>']) {
        crate::text::lemma_cidx_bp(s, i + 3);
    } else {
        lemma_ident_bounds(s, i);
        if let IdentOut::Found(e, _) = ident(s, i) {
            crate::text::lemma_cidx_bp(s, e);
        } else if c == '@' || c == '#' {
            reveal(scan_prefixed);
            lemma_read_loop_bounds(s, i + 1, LoopKind::Name);
            crate::text::lemma_cidx_bp(s, read_loop(s, i + 1, LoopKind::Name)->Done_0);
        } else if c == '!' {
            crate::text::lemma_cidx_bp(s, i + 1);
        } else if number(s, i) is Some {
            let j = number(s, i)->0;
            lemma_number_bounds(s, i);
            reveal(scan_numeric);
            if at(s, j) == '%' {
                crate::text::lemma_cidx_bp(s, j + 1);
            } else {
                lemma_ident_bounds(s, j);
                if let IdentOut::Found(e, _) = ident(s, j) {
                    crate::text::lemma_cidx_bp(s, e);
                } else {
                    crate::text::lemma_cidx_bp(s, j);
                }
            }
        } else if is_quote(c) {
            reveal(string_tok);
            lemma_read_loop_bounds(s, i + 1, LoopKind::Quoted(c));
            let k = read_loop(s, i + 1, LoopKind::Quoted(c))->Done_0;
            if at(s, k) == c {
                crate::text::lemma_cidx_bp(s, k + 1);
            } else {
                crate::text::lemma_cidx_bp(s, k);
            }
        } else if spec_static_token(c) is Some {
            crate::text::lemma_cidx_bp(s, i + 1);
        } else if spec_operator(c) is Some && at(s, i + 1) == '=' {
            crate::text::lemma_cidx_bp(s, i + 2);
        } else {
            crate::text::lemma_cidx_bp(s, i + 1);
        }
    }
}

} // verus!
