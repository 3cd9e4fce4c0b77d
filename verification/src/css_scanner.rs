//! The CSS scanner: a character stream addressed by byte offsets and the tokenizer
//! built on it.
use vstd::prelude::*;
use crate::text::{
    all_hex, at, blen, bp, cidx, clen, collect_chars, exec_is_hex, hex_digit, hex_value, is_hex, len_utf8, lemma_bp_full, lemma_bp_mono, lemma_bp_step,
    lemma_bp_sub, lemma_bp_zero, lemma_cidx_bp, lemma_cidx_some, str_slice, str_len, is_newline, string_push,
    char_from_u32, exec_is_ident_char, exec_is_ident_first, exec_is_newline, exec_is_ws,
    is_ident_char, is_ident_first, exec_is_digit, is_digit, is_ws, str_to_lowercase, eq_chars,
};
use crate::scan_spec::{
    lemma_bp_ascii, lemma_unicode_range_bounds, lemma_scan_progress, lemma_scan_eof, lemma_scan_defined,
    no_dangling_escape, out, spec_scan, unicode_range, unquoted,
    charset_kw, lemma_ident_bounds, lemma_number_bounds, lemma_string_tok_end, scan_next,
    scan_numeric, scan_prefixed, scan_rest, spec_operator, CharClass, IdentOut, TriviaOut, class_has, comment_end, ident, lemma_comment_bounds,
    lemma_skip_bounds, lemma_skip_exact, number, out_raw, skip_while, starts_comment, trivia,
    EscOut, LoopKind, LoopOut, ScanOut, escape, is_quote, is_string_char, is_unquoted_char,
    lemma_escape_bounds, lemma_read_loop_bounds, read_loop, string_tok, hex_run, lemma_hex_run_bounds, newline_end, newline_text, starts_with,
    spec_static_token, spec_unit_table,
};
use vstd::arithmetic::power2::{
    pow2, lemma_pow2_adds, lemma_pow2_pos, lemma_pow2_strictly_increases, lemma2_to64,
};
use vstd::layout::unsigned_int_max_values;

verus! {

#[derive(Debug, Clone, Copy, PartialEq, Eq, Structural)]
pub enum TokenType {
    _INVALID,
    Ident,
    AtKeyword,
    String,
    BadString,
    UnquotedString,
    Hash,
    Num,
    Percentage,
    Dimension,
    UnicodeRange,
    CDO,
    CDC,
    Colon,
    SemiColon,
    CurlyL,
    CurlyR,
    ParenthesisL,
    ParenthesisR,
    BracketL,
    BracketR,
    Whitespace,
    Includes,
    Dashmatch,
    SubstringOperator,
    PrefixOperator,
    SuffixOperator,
    Delim,
    EMS,
    EXS,
    Length,
    Angle,
    Time,
    Freq,
    Exclamation,
    Resolution,
    Comma,
    Charset,
    EscapedJavaScript,
    BadEscapedJavaScript,
    Comment,
    SingleLineComment,
    EOF,
    ContainerQueryLength,
    CustomToken,
}

#[derive(Debug, Clone, PartialEq)]
pub struct Token {
    pub token_type: TokenType,
    pub text: String,
    pub offset: usize,
    pub length: usize,
}

/// The token `t` is the scanned token `o`.
pub open spec fn token_is(t: Token, o: ScanOut) -> bool {
    &&& t.token_type == o.tt
    &&& t.text@ == o.text
    &&& t.offset == o.offset
    &&& t.length == o.end - o.offset
}

/// A source text with a read position; `length` and `position` are byte offsets.
pub struct MultiLineStream {
    source: String,
    chars: Vec<char>,
    starts: Vec<usize>,
    length: usize,
    position: usize,
    index: usize,
}

/// The model of a stream: its text, the `length` it was created with and its
/// byte position.
pub struct StreamView {
    pub src: Seq<char>,
    pub length: int,
    pub position: int,
}

impl StreamView {
    /// The character index of the position, when it lies on a character boundary.
    pub open spec fn cur(self) -> Option<int> {
        cidx(self.src, self.position)
    }

    /// The stream reads its whole text: `length` is the text's byte length.
    pub open spec fn ready(self) -> bool {
        self.length == blen(self.src)
    }
}

impl View for MultiLineStream {
    type V = StreamView;

    closed spec fn view(&self) -> StreamView {
        StreamView {
            src: self.chars@,
            length: self.length as int,
            position: self.position as int,
        }
    }
}

pub proof fn lemma_next_index(s: Seq<char>, i: int)
    requires
        0 <= i < s.len(),
    ensures
        cidx(s, bp(s, i) + clen(s[i])) == Some(i + 1),
{
    lemma_bp_step(s, i);
    lemma_cidx_bp(s, i + 1);
}

impl MultiLineStream {
    pub closed spec fn wf(&self) -> bool {
        &&& self.source@ == self.chars@
        &&& self.starts@.len() == self.chars@.len() + 1
        &&& forall|i: int|
            0 <= i <= self.chars@.len() ==> #[trigger] self.starts@[i] == bp(self.chars@, i)
        &&& blen(self.chars@) <= isize::MAX
        &&& self.index <= self.chars@.len()
        &&& cidx(self.chars@, self.position as int) is Some ==> self.starts@[self.index as int]
            == self.position
    }

    /// The text of a well-formed stream fits in `isize::MAX` bytes.
    pub proof fn lemma_wf_bound(&self)
        requires
            self.wf(),
        ensures
            blen(self@.src) <= isize::MAX,
    {
    }

    proof fn lemma_index(&self)
        requires
            self.wf(),
            self@.cur() is Some,
        ensures
            self@.cur() == Some(self.index as int),
    {
        lemma_cidx_some(self.chars@, self.position as int);
        lemma_cidx_bp(self.chars@, self.index as int);
    }

    fn build(source: String) -> (r: (Vec<char>, Vec<usize>, usize))
        ensures
            r.0@ == source@,
            r.1@.len() == source@.len() + 1,
            forall|i: int| 0 <= i <= source@.len() ==> #[trigger] r.1@[i] == bp(source@, i),
            r.2 == blen(source@),
            blen(source@) <= isize::MAX,
    {
        let total = str_len(source.as_str());
        let chars = collect_chars(source.as_str());
        let mut starts: Vec<usize> = Vec::new();
        let mut acc: usize = 0;
        starts.push(0);
        proof {
            lemma_bp_zero(chars@);
        }
        let mut i: usize = 0;
        while i < chars.len()
            invariant
                chars@ == source@,
                total == blen(source@),
                i <= chars.len(),
                starts@.len() == i + 1,
                forall|k: int| 0 <= k <= i ==> #[trigger] starts@[k] == bp(chars@, k),
                acc == bp(chars@, i as int),
            decreases chars.len() - i,
        {
            proof {
                lemma_bp_step(chars@, i as int);
                lemma_bp_mono(chars@, i + 1, chars@.len() as int);
                lemma_bp_full(chars@);
            }
            acc = acc + len_utf8(chars[i]);
            starts.push(acc);
            i = i + 1;
        }
        proof {
            lemma_bp_full(chars@);
        }
        (chars, starts, total)
    }

    /// The character index whose byte offset is `b`.
    fn locate(&self, b: usize) -> (r: Option<usize>)
        requires
            self.wf(),
        ensures
            r matches Some(i) ==> cidx(self@.src, b as int) == Some(i as int),
            r is None ==> cidx(self@.src, b as int) is None,
    {
        let ghost s = self.chars@;
        let mut lo: usize = 0;
        let mut hi: usize = self.starts.len();
        while lo < hi
            invariant
                self.wf(),
                s == self.chars@,
                0 <= lo <= hi <= s.len() + 1,
                forall|k: int| 0 <= k < lo ==> bp(s, k) < b,
                forall|k: int| hi <= k <= s.len() ==> bp(s, k) > b,
            decreases hi - lo,
        {
            let mid = lo + (hi - lo) / 2;
            let v = self.starts[mid];
            if v == b {
                proof {
                    lemma_cidx_bp(s, mid as int);
                }
                return Some(mid);
            } else if v < b {
                proof {
                    assert forall|k: int| 0 <= k < mid + 1 implies bp(s, k) < b by {
                        if k < mid {
                            lemma_bp_mono(s, k, mid as int);
                        }
                    }
                }
                lo = mid + 1;
            } else {
                proof {
                    assert forall|k: int| mid <= k <= s.len() implies bp(s, k) > b by {
                        if k > mid {
                            lemma_bp_mono(s, mid as int, k);
                        }
                    }
                }
                hi = mid;
            }
        }
        proof {
            if cidx(s, b as int) is Some {
                lemma_cidx_some(s, b as int);
            }
        }
        None
    }

    /// Re-establishes the character index after the position moved.
    fn resync(&mut self)
        requires
            old(self).source@ == old(self).chars@,
            old(self).starts@.len() == old(self).chars@.len() + 1,
            forall|i: int|
                0 <= i <= old(self).chars@.len() ==> #[trigger] old(self).starts@[i] == bp(
                    old(self).chars@,
                    i,
                ),
            blen(old(self).chars@) <= isize::MAX,
            old(self).index <= old(self).chars@.len(),
        ensures
            final(self).wf(),
            final(self)@ == old(self)@,
    {
        let ghost s = self.chars@;
        let mut lo: usize = 0;
        let mut hi: usize = self.starts.len();
        let b = self.position;
        while lo < hi
            invariant
                s == self.chars@,
                self.source@ == s,
                self.position == b,
                self@ == old(self)@,
                self.index <= s.len(),
                blen(s) <= isize::MAX,
                self.starts@.len() == s.len() + 1,
                forall|i: int| 0 <= i <= s.len() ==> #[trigger] self.starts@[i] == bp(s, i),
                0 <= lo <= hi <= s.len() + 1,
                forall|k: int| 0 <= k < lo ==> bp(s, k) < b,
                forall|k: int| hi <= k <= s.len() ==> bp(s, k) > b,
            decreases hi - lo,
        {
            let mid = lo + (hi - lo) / 2;
            let v = self.starts[mid];
            if v == b {
                self.index = mid;
                return ;
            } else if v < b {
                proof {
                    assert forall|k: int| 0 <= k < mid + 1 implies bp(s, k) < b by {
                        if k < mid {
                            lemma_bp_mono(s, k, mid as int);
                        }
                    }
                }
                lo = mid + 1;
            } else {
                proof {
                    assert forall|k: int| mid <= k <= s.len() implies bp(s, k) > b by {
                        if k > mid {
                            lemma_bp_mono(s, mid as int, k);
                        }
                    }
                }
                hi = mid;
            }
        }
        proof {
            if cidx(s, b as int) is Some {
                lemma_cidx_some(s, b as int);
            }
        }
    }

    pub fn new(source: String) -> (r: Self)
        ensures
            r.wf(),
            r@.src == source@,
            r@.length == blen(source@),
            r@.position == 0,
    {
        let (chars, starts, length) = Self::build(source.clone());
        proof {
            lemma_bp_zero(chars@);
        }
        MultiLineStream { length, source, chars, starts, position: 0, index: 0 }
    }

    /// The text from byte offset `from` to the position.
    pub fn substring_to_curr(&self, from: usize) -> (r: &str)
        requires
            self.wf(),
            cidx(self@.src, from as int) is Some,
            self@.cur() is Some,
            from <= self@.position,
        ensures
            r@ == self@.src.subrange(cidx(self@.src, from as int)->0, self@.cur()->0),
    {
        str_slice(self.source.as_str(), from, self.position)
    }

    /// The text between byte offsets `from` and `to`.
    pub fn substring(&self, from: usize, to: usize) -> (r: &str)
        requires
            self.wf(),
            cidx(self@.src, from as int) is Some,
            cidx(self@.src, to as int) is Some,
            from <= to,
        ensures
            r@ == self@.src.subrange(cidx(self@.src, from as int)->0, cidx(self@.src, to as int)->0),
    {
        str_slice(self.source.as_str(), from, to)
    }

    pub fn eos(&self) -> (r: bool)
        ensures
            r == (self@.length <= self@.position),
    {
        self.length <= self.position
    }

    /// The character at byte offset `byte_offset`, which is before the end.
    pub fn char_at(&self, byte_offset: usize) -> (r: char)
        requires
            self.wf(),
            cidx(self@.src, byte_offset as int) matches Some(i) && i < self@.src.len(),
        ensures
            r == self@.src[cidx(self@.src, byte_offset as int)->0],
    {
        let i = self.locate(byte_offset).unwrap();
        self.chars[i]
    }

    /// The character at byte offset `byte_offset`, or `'\0'` at the end.
    pub fn char_at_infallible(&self, byte_offset: usize) -> (r: char)
        requires
            self.wf(),
            cidx(self@.src, byte_offset as int) is Some,
        ensures
            r == at(self@.src, cidx(self@.src, byte_offset as int)->0),
    {
        let i = self.locate(byte_offset).unwrap();
        if i < self.chars.len() {
            self.chars[i]
        } else {
            '\0'
        }
    }

    pub fn get_position(&self) -> (r: usize)
        ensures
            r == self@.position,
    {
        self.position
    }

    pub fn set_position(&mut self, position: usize)
        requires
            old(self).wf(),
        ensures
            final(self).wf(),
            final(self)@ == (StreamView { position: position as int, ..old(self)@ }),
    {
        self.position = position;
        self.resync();
    }

    /// Replaces the text and moves to its start.
    pub fn set_source(&mut self, source: String)
        ensures
            final(self).wf(),
            final(self)@.src == source@,
            final(self)@.length == blen(source@),
            final(self)@.position == 0,
    {
        *self = MultiLineStream::new(source);
    }

    /// Takes the text out, leaving an empty text; `length` and the position stay.
    pub fn take_source(&mut self) -> (r: String)
        requires
            old(self).wf(),
        ensures
            final(self).wf(),
            r@ == old(self)@.src,
            final(self)@ == (StreamView { src: Seq::<char>::empty(), ..old(self)@ }),
    {
        let mut taken = String::new();
        std::mem::swap(&mut taken, &mut self.source);
        self.chars = Vec::new();
        let mut starts: Vec<usize> = Vec::new();
        starts.push(0);
        self.starts = starts;
        self.index = 0;
        proof {
            lemma_bp_zero(self.chars@);
            assert(blen(self.chars@) == 0);
        }
        self.resync();
        taken
    }

    /// Moves the position forward by `byte_step` bytes.
    pub fn advance(&mut self, byte_step: usize)
        requires
            old(self).wf(),
            old(self)@.position + byte_step <= usize::MAX,
        ensures
            final(self).wf(),
            final(self)@ == (StreamView {
                position: old(self)@.position + byte_step,
                ..old(self)@
            }),
    {
        self.position = self.position + byte_step;
        self.resync();
    }

    /// The character at the position, which is before the end.
    pub fn curr_char(&self) -> (r: char)
        requires
            self.wf(),
            self@.cur() matches Some(i) && i < self@.src.len(),
        ensures
            r == self@.src[self@.cur()->0],
    {
        self.char_at(self.position)
    }

    /// The character at the position, or `'\0'` at or after the end.
    pub fn curr_char_infallible(&self) -> (r: char)
        requires
            self.wf(),
            self@.cur() is Some || self@.position >= blen(self@.src),
        ensures
            r == (if self@.position >= blen(self@.src) {
                '\0'
            } else {
                at(self@.src, self@.cur()->0)
            }),
            self@.cur() is Some ==> r == at(self@.src, self@.cur()->0),
    {
        proof {
            lemma_bp_full(self.chars@);
            if self@.cur() is Some {
                lemma_cidx_some(self.chars@, self.position as int);
                let i = self@.cur()->0;
                if i < self.chars@.len() {
                    lemma_bp_mono(self.chars@, i, self.chars@.len() as int);
                }
            }
        }
        let end = self.starts[self.chars.len()];
        if self.position >= end {
            '\0'
        } else {
            self.char_at_infallible(self.position)
        }
    }

    /// Reads the character at the position (`'\0'` at the end) and moves forward by
    /// its byte length.
    pub fn next_char(&mut self) -> (r: char)
        requires
            old(self).wf(),
            old(self)@.cur() is Some,
            old(self)@.position + 4 <= usize::MAX,
        ensures
            final(self).wf(),
            r == at(old(self)@.src, old(self)@.cur()->0),
            final(self)@ == (StreamView {
                position: old(self)@.position + clen(r),
                ..old(self)@
            }),
    {
        proof {
            self.lemma_index();
        }
        let ch = if self.index < self.chars.len() {
            self.chars[self.index]
        } else {
            '\0'
        };
        self.position = self.position + len_utf8(ch);
        self.resync();
        ch
    }

    /// The `n`-th character from the position on.
    pub fn peek_char(&mut self, n: usize) -> (r: Option<char>)
        requires
            old(self).wf(),
            old(self)@.cur() is Some,
        ensures
            *final(self) == *old(self),
            r == (if old(self)@.cur()->0 + n < old(self)@.src.len() {
                Some(old(self)@.src[old(self)@.cur()->0 + n])
            } else {
                None
            }),
    {
        proof {
            self.lemma_index();
        }
        if n < self.chars.len() - self.index {
            Some(self.chars[self.index + n])
        } else {
            None
        }
    }

    /// The `n`-th character from the position on, or `'\0'`.
    pub fn peek_char_infallible(&mut self, n: usize) -> (r: char)
        requires
            old(self).wf(),
            old(self)@.cur() is Some,
        ensures
            *final(self) == *old(self),
            r == at(old(self)@.src, old(self)@.cur()->0 + n),
    {
        match self.peek_char(n) {
            Some(c) => c,
            None => '\0',
        }
    }

    /// The `n`-th character before the position, counting backwards.
    pub fn lookback_char(&mut self, n: usize) -> (r: Option<char>)
        requires
            old(self).wf(),
            old(self)@.cur() is Some,
        ensures
            *final(self) == *old(self),
            r == (if n < old(self)@.cur()->0 {
                Some(old(self)@.src[old(self)@.cur()->0 - 1 - n])
            } else {
                None
            }),
    {
        proof {
            self.lemma_index();
        }
        if n < self.index {
            Some(self.chars[self.index - 1 - n])
        } else {
            None
        }
    }

    /// Moves over `c` when it is the character at the position (`'\0'` matches the end).
    pub fn advance_if_char(&mut self, c: char) -> (r: bool)
        requires
            old(self).wf(),
            old(self)@.cur() is Some,
        ensures
            final(self).wf(),
            r == (c == at(old(self)@.src, old(self)@.cur()->0)),
            final(self)@ == (StreamView {
                position: old(self)@.position + if r {
                    clen(c) as int
                } else {
                    0
                },
                ..old(self)@
            }),
    {
        proof {
            lemma_cidx_some(self.chars@, self.position as int);
            lemma_bp_mono(self.chars@, self.index as int, self.chars@.len() as int);
            lemma_bp_full(self.chars@);
        }
        if c == self.curr_char_infallible() {
            self.position = self.position + len_utf8(c);
            self.resync();
            return true;
        }
        false
    }

    /// Moves over `chars` when the text continues with them at the position.
    pub fn advance_if_chars(&mut self, chars: &str) -> (r: bool)
        requires
            old(self).wf(),
            old(self)@.cur() is Some,
        ensures
            final(self).wf(),
            r == starts_with(old(self)@.src, old(self)@.cur()->0, chars@),
            final(self)@ == (StreamView {
                position: if r {
                    bp(old(self)@.src, old(self)@.cur()->0 + chars@.len())
                } else {
                    old(self)@.position
                },
                ..old(self)@
            }),
    {
        proof {
            self.lemma_index();
        }
        let ghost s = self.chars@;
        let ghost i = self.index as int;
        let t = collect_chars(chars);
        let n = self.chars.len();
        if t.len() > self.chars.len() - self.index {
            return false;
        }
        let mut k: usize = 0;
        while k < t.len()
            invariant
                self.wf(),
                s == self.chars@,
                i == self.index,
                t@ == chars@,
                n == s.len(),
                self@ == old(self)@,
                s == old(self)@.src,
                i == old(self)@.cur()->0,
                t.len() <= s.len() - i,
                i + t.len() <= s.len(),
                k <= t.len(),
                forall|m: int| 0 <= m < k ==> s[i + m] == t@[m],
            decreases t.len() - k,
        {
            if self.chars[self.index + k] != t[k] {
                proof {
                    assert(s.subrange(i, i + t.len())[k as int] == s[i + k]);
                    assert(s.subrange(i, i + t.len())[k as int] != t@[k as int]);
                }
                return false;
            }
            k = k + 1;
        }
        proof {
            assert(s.subrange(i, i + t.len()) =~= t@);
            lemma_bp_sub(s, i, i + t.len());
            lemma_cidx_some(s, self.position as int);
            lemma_bp_mono(s, i + t.len(), s.len() as int);
            lemma_bp_full(s);
        }
        let step = str_len(chars);
        self.position = self.position + step;
        self.resync();
        true
    }

    /// Moves forward over the characters satisfying `condition`, up to `length`;
    /// returns the number of bytes moved.
    pub fn advance_while_char<F: Fn(char) -> bool>(&mut self, condition: F) -> (r: usize)
        requires
            old(self).wf(),
            old(self)@.ready(),
            old(self)@.cur() is Some,
            forall|c: char| condition.requires((c,)),
        ensures
            final(self).wf(),
            final(self)@.src == old(self)@.src,
            final(self)@.length == old(self)@.length,
            final(self)@.cur() matches Some(j) && {
                let s = old(self)@.src;
                let i = old(self)@.cur()->0;
                &&& i <= j <= s.len()
                &&& forall|k: int| i <= k < j ==> condition.ensures((s[k],), true)
                &&& j < s.len() ==> condition.ensures((s[j],), false)
                &&& r == bp(s, j) - bp(s, i)
            },
    {
        proof {
            self.lemma_index();
            lemma_bp_full(self.chars@);
        }
        let ghost s = self.chars@;
        let ghost i = self.index as int;
        let ghost len0 = self.length;
        let n = self.chars.len();
        let start_pos = self.position;
        if self.position >= str_len(self.source.as_str()) {
            proof {
                if i < s.len() {
                    lemma_bp_mono(s, i, s.len() as int);
                }
            }
            return 0;
        }
        while self.position < self.length
            invariant
                self.wf(),
                s == self.chars@,
                n == s.len(),
                self.length == len0,
                len0 == blen(s),
                s == old(self)@.src,
                len0 == old(self)@.length,
                i == old(self)@.cur()->0,
                forall|c: char| condition.requires((c,)),
                self@.cur() == Some(self.index as int),
                self.position == bp(s, self.index as int),
                0 <= i <= self.index <= s.len(),
                start_pos == bp(s, i),
                forall|k: int| i <= k < self.index ==> condition.ensures((s[k],), true),
            decreases s.len() - self.index,
        {
            proof {
                if self.index == s.len() {
                    lemma_bp_full(s);
                }
                lemma_bp_mono(s, i, self.index as int);
            }
            let c = self.chars[self.index];
            if !condition(c) {
                return self.position - start_pos;
            }
            proof {
                lemma_next_index(s, self.index as int);
                lemma_bp_step(s, self.index as int);
                lemma_bp_mono(s, self.index + 1, s.len() as int);
                lemma_bp_full(s);
            }
            self.position = self.position + len_utf8(c);
            self.index = self.index + 1;
        }
        proof {
            lemma_bp_full(s);
            if self.index < s.len() {
                lemma_bp_mono(s, self.index as int, s.len() as int);
            }
            lemma_bp_mono(s, i, self.index as int);
        }
        self.position - start_pos
    }
}


/// Value of the hex digit `c` (either case).
fn hex_digit_to_val(c: char) -> (r: usize)
    requires
        is_hex(c),
    ensures
        r == hex_digit(c),
        r < 16,
{
    if c == '0' {
        0
    } else if c == '1' {
        1
    } else if c == '2' {
        2
    } else if c == '3' {
        3
    } else if c == '4' {
        4
    } else if c == '5' {
        5
    } else if c == '6' {
        6
    } else if c == '7' {
        7
    } else if c == '8' {
        8
    } else if c == '9' {
        9
    } else if c == 'a' || c == 'A' {
        10
    } else if c == 'b' || c == 'B' {
        11
    } else if c == 'c' || c == 'C' {
        12
    } else if c == 'd' || c == 'D' {
        13
    } else if c == 'e' || c == 'E' {
        14
    } else {
        15
    }
}

proof fn lemma_hex_value_bound(t: Seq<char>)
    requires
        all_hex(t),
    ensures
        hex_value(t) < pow2(4 * t.len()),
    decreases t.len(),
{
    if t.len() == 0 {
        lemma_pow2_pos(0);
    } else {
        let k = (t.len() - 1) as nat;
        lemma_hex_value_bound(t.drop_last());
        lemma_pow2_adds(4 * k, 4);
        lemma2_to64();
        assert(4 * t.len() == 4 * k + 4);
        assert(hex_value(t) == hex_value(t.drop_last()) * 16 + hex_digit(t.last()));
        assert(hex_digit(t.last()) < 16);
        assert(hex_value(t.drop_last()) * 16 <= (pow2(4 * k) - 1) * 16) by (nonlinear_arith)
            requires
                hex_value(t.drop_last()) <= pow2(4 * k) - 1,
        ;
    }
}

/// The value of a non-empty string of hex digits; `None` when it holds another character.
fn hex_string_to_num(s: &str) -> (r: Option<usize>)
    requires
        s@.len() > 0,
        all_hex(s@) ==> s@.len() * 4 <= usize::BITS,
    ensures
        r is Some <==> all_hex(s@),
        r matches Some(v) ==> v == hex_value(s@),
{
    let chars = collect_chars(s);
    let mut i: usize = 0;
    while i < chars.len()
        invariant
            chars@ == s@,
            i <= chars.len(),
            forall|k: int| 0 <= k < i ==> is_hex(#[trigger] s@[k]),
        decreases chars.len() - i,
    {
        if !exec_is_hex(chars[i]) {
            return None;
        }
        i = i + 1;
    }
    proof {
        unsigned_int_max_values();
    }
    let mut result: usize = 0;
    let mut i: usize = 0;
    while i < chars.len()
        invariant
            chars@ == s@,
            all_hex(s@),
            s@.len() * 4 <= usize::BITS,
            (usize::MAX as nat) == pow2(usize::BITS as nat) - 1,
            i <= chars.len(),
            result == hex_value(s@.take(i as int)),
        decreases chars.len() - i,
    {
        let ghost t = s@.take(i + 1);
        proof {
            assert(t.drop_last() =~= s@.take(i as int));
            lemma_hex_value_bound(t);
            if 4 * t.len() < usize::BITS {
                lemma_pow2_strictly_increases(4 * t.len(), usize::BITS as nat);
            }
        }
        let d = hex_digit_to_val(chars[i]);
        result = result * 16 + d;
        i = i + 1;
    }
    assert(s@.take(chars.len() as int) =~= s@);
    Some(result)
}

/// The single-character tokens.
pub fn static_token(c: char) -> (r: Option<TokenType>)
    ensures
        r == spec_static_token(c),
{
    if c == ';' {
        Some(TokenType::SemiColon)
    } else if c == ':' {
        Some(TokenType::Colon)
    } else if c == '{' {
        Some(TokenType::CurlyL)
    } else if c == '}' {
        Some(TokenType::CurlyR)
    } else if c == '[' {
        Some(TokenType::BracketL)
    } else if c == ']' {
        Some(TokenType::BracketR)
    } else if c == '(' {
        Some(TokenType::ParenthesisL)
    } else if c == ')' {
        Some(TokenType::ParenthesisR)
    } else if c == ',' {
        Some(TokenType::Comma)
    } else {
        None
    }
}

/// The token type of a (lower-cased) unit.
pub fn static_unit_table(s: &str) -> (r: Option<TokenType>)
    ensures
        r == spec_unit_table(s@),
{
    let v = collect_chars(s);
    let em = eq_chars(&v, &['e', 'm']);
    let ex = eq_chars(&v, &['e', 'x']);
    let px = eq_chars(&v, &['p', 'x']);
    let cm = eq_chars(&v, &['c', 'm']);
    let mm = eq_chars(&v, &['m', 'm']);
    let inch = eq_chars(&v, &['i', 'n']);
    let pt = eq_chars(&v, &['p', 't']);
    let pc = eq_chars(&v, &['p', 'c']);
    let deg = eq_chars(&v, &['d', 'e', 'g']);
    let rad = eq_chars(&v, &['r', 'a', 'd']);
    let grad = eq_chars(&v, &['g', 'r', 'a', 'd']);
    let ms = eq_chars(&v, &['m', 's']);
    let sec = eq_chars(&v, &['s']);
    let hz = eq_chars(&v, &['h', 'z']);
    let khz = eq_chars(&v, &['k', 'h', 'z']);
    let pct = eq_chars(&v, &['%']);
    let fr = eq_chars(&v, &['f', 'r']);
    let dpi = eq_chars(&v, &['d', 'p', 'i']);
    let dpcm = eq_chars(&v, &['d', 'p', 'c', 'm']);
    let cqw = eq_chars(&v, &['c', 'q', 'w']);
    let cqh = eq_chars(&v, &['c', 'q', 'h']);
    let cqi = eq_chars(&v, &['c', 'q', 'i']);
    let cqb = eq_chars(&v, &['c', 'q', 'b']);
    let cqmin = eq_chars(&v, &['c', 'q', 'm', 'i', 'n']);
    let cqmax = eq_chars(&v, &['c', 'q', 'm', 'a', 'x']);
    if em {
        Some(TokenType::EMS)
    } else if ex {
        Some(TokenType::EXS)
    } else if px || cm || mm || inch || pt || pc {
        Some(TokenType::Length)
    } else if deg || rad || grad {
        Some(TokenType::Angle)
    } else if ms || sec {
        Some(TokenType::Time)
    } else if hz || khz {
        Some(TokenType::Freq)
    } else if pct || fr {
        Some(TokenType::Percentage)
    } else if dpi || dpcm {
        Some(TokenType::Resolution)
    } else if cqw || cqh || cqi || cqb || cqmin || cqmax {
        Some(TokenType::ContainerQueryLength)
    } else {
        None
    }
}


pub struct Scanner {
    pub stream: MultiLineStream,
    pub ignore_comments: bool,
    pub ignore_whitespace: bool,
    pub in_url: bool,
}

impl Scanner {
    /// The stream is well formed and reads its whole text.
    pub open spec fn ready(&self) -> bool {
        self.stream.wf() && self.stream@.ready()
    }

    pub open spec fn src(&self) -> Seq<char> {
        self.stream@.src
    }

    pub open spec fn pos(&self) -> int {
        self.stream@.position
    }

    /// The position lies on a character boundary.
    pub open spec fn at_index(&self) -> bool {
        self.stream@.cur() is Some
    }

    /// The character index of the position.
    pub open spec fn idx(&self) -> int {
        self.stream@.cur()->0
    }

    /// Same text and settings; only the position may differ.
    pub open spec fn keeps(self, other: Scanner) -> bool {
        &&& self.stream@.src == other.stream@.src
        &&& self.stream@.length == other.stream@.length
        &&& self.ignore_comments == other.ignore_comments
        &&& self.ignore_whitespace == other.ignore_whitespace
        &&& self.in_url == other.in_url
    }

    proof fn lemma_pos(&self)
        requires
            self.ready(),
            self.at_index(),
        ensures
            0 <= self.idx() <= self.src().len(),
            self.pos() == bp(self.src(), self.idx()),
            self.pos() <= blen(self.src()),
            blen(self.src()) <= isize::MAX,
            self.idx() < self.src().len() ==> self.pos() + clen(self.src()[self.idx()]) <= blen(
                self.src(),
            ),
    {
        self.stream.lemma_wf_bound();
        lemma_cidx_some(self.src(), self.pos());
        lemma_bp_full(self.src());
        lemma_bp_mono(self.src(), self.idx(), self.src().len() as int);
        if self.idx() < self.src().len() {
            lemma_bp_step(self.src(), self.idx());
            lemma_bp_mono(self.src(), self.idx() + 1, self.src().len() as int);
        }
    }

    pub fn new(source: String, ignore_comments: bool, ignore_whitespace: bool, in_url: bool) -> (r:
        Self)
        ensures
            r.ready(),
            r.src() == source@,
            r.pos() == 0,
            r.ignore_comments == ignore_comments,
            r.ignore_whitespace == ignore_whitespace,
            r.in_url == in_url,
    {
        Scanner { stream: MultiLineStream::new(source), ignore_comments, ignore_whitespace, in_url }
    }

    /// A token from byte offset `offset` to the position, with the given text.
    pub fn finish_token(&self, offset: usize, token_type: TokenType, text: String) -> (r: Token)
        requires
            offset <= self.pos(),
        ensures
            r.token_type == token_type,
            r.text == text,
            r.offset == offset,
            r.length == self.pos() - offset,
    {
        Token { offset, length: self.stream.get_position() - offset, token_type, text }
    }

    /// A token from byte offset `offset` to the position, whose text is the source
    /// between them.
    pub fn finish_token_auto_text(&self, offset: usize, token_type: TokenType) -> (r: Token)
        requires
            self.stream.wf(),
            cidx(self.src(), offset as int) is Some,
            self.at_index(),
            offset <= self.pos(),
        ensures
            r.token_type == token_type,
            r.text@ == self.src().subrange(cidx(self.src(), offset as int)->0, self.idx()),
            r.offset == offset,
            r.length == self.pos() - offset,
    {
        Token {
            offset,
            length: self.stream.get_position() - offset,
            token_type,
            text: self.stream.substring_to_curr(offset).to_owned(),
        }
    }

    /// The `length` bytes of source from byte offset `offset`.
    pub fn substring(&self, offset: usize, length: usize) -> (r: &str)
        requires
            self.stream.wf(),
            offset + length <= usize::MAX,
            cidx(self.src(), offset as int) is Some,
            cidx(self.src(), offset + length) is Some,
        ensures
            r@ == self.src().subrange(
                cidx(self.src(), offset as int)->0,
                cidx(self.src(), offset + length)->0,
            ),
    {
        self.stream.substring(offset, offset + length)
    }

    pub fn get_position(&self) -> (r: usize)
        ensures
            r == self.pos(),
    {
        self.stream.get_position()
    }

    pub fn set_position(&mut self, position: usize)
        requires
            old(self).ready(),
        ensures
            final(self).ready(),
            final(self).keeps(*old(self)),
            final(self).pos() == position,
    {
        self.stream.set_position(position);
    }

    /// Scans `input` from its start.
    pub fn set_source(&mut self, input: String)
        ensures
            final(self).ready(),
            final(self).src() == input@,
            final(self).pos() == 0,
            final(self).ignore_comments == old(self).ignore_comments,
            final(self).ignore_whitespace == old(self).ignore_whitespace,
            final(self).in_url == old(self).in_url,
    {
        self.stream = MultiLineStream::new(input);
    }

    fn _newline(&mut self, result: &mut String) -> (r: bool)
        requires
            old(self).ready(),
            old(self).at_index(),
        ensures
            final(self).ready(),
            final(self).keeps(*old(self)),
            r == is_newline(at(old(self).src(), old(self).idx())),
            final(self).stream@.cur() == Some(newline_end(old(self).src(), old(self).idx())),
            final(result)@ == old(result)@ + newline_text(old(self).src(), old(self).idx()),
    {
        proof {
            self.lemma_pos();
        }
        let ghost s = self.src();
        let ghost i = self.idx();
        let ch = self.stream.peek_char_infallible(0);
        if ch == '\r' || ch == '\x0c' || ch == '\n' {
            proof {
                lemma_next_index(s, i);
            }
            self.stream.advance(len_utf8(ch));
            string_push(result, ch);
            proof {
                self.lemma_pos();
            }
            if ch == '\r' && self.stream.advance_if_char('\n') {
                proof {
                    lemma_next_index(s, i + 1);
                }
                string_push(result, '\n');
                proof {
                    assert(newline_text(s, i) =~= seq!['\r', '\n']);
                }
            } else {
                proof {
                    assert(newline_text(s, i) =~= seq![ch]);
                }
            }
            return true;
        }
        proof {
            assert(newline_text(s, i) =~= Seq::<char>::empty());
            assert(old(result)@ + Seq::<char>::empty() =~= old(result)@);
        }
        false
    }

    #[verifier::rlimit(40)]
    fn _escape(&mut self, result: &mut String, include_new_lines: bool) -> (r: bool)
        requires
            old(self).ready(),
            old(self).at_index(),
            !(escape(old(self).src(), old(self).idx(), include_new_lines) is Undefined),
        ensures
            final(self).ready(),
            final(self).keeps(*old(self)),
            match escape(old(self).src(), old(self).idx(), include_new_lines) {
                EscOut::NoMatch(k) => !r && final(self).stream@.cur() == Some(k)
                    && final(result)@ == old(result)@,
                EscOut::Match(k, o) => r && final(self).stream@.cur() == Some(k)
                    && final(result)@ == old(result)@ + o,
                EscOut::Undefined => false,
            },
    {
        proof {
            self.lemma_pos();
        }
        let ghost s = self.src();
        let ghost i = self.idx();
        let mut ch = self.stream.peek_char_infallible(0);
        if ch == '\\' {
            proof {
                lemma_next_index(s, i);
            }
            self.stream.advance(1);
            let ghost j = i + 1;
            proof {
                self.lemma_pos();
                lemma_hex_run_bounds(s, j, 6);
            }
            ch = self.stream.peek_char_infallible(0);
            let mut hex_num_count: usize = 0;
            while hex_num_count < 6 && exec_is_hex(ch)
                invariant
                    self.ready(),
                    self.keeps(*old(self)),
                    s == self.src(),
                    0 <= j <= s.len(),
                    hex_num_count <= 6,
                    self.stream@.cur() == Some(j + hex_num_count),
                    self.pos() == bp(s, j) + hex_num_count,
                    ch == at(s, j + hex_num_count),
                    forall|t: int| j <= t < j + hex_num_count ==> is_hex(#[trigger] s[t]) && t
                        < s.len(),
                    hex_run(s, j, 6) == hex_num_count + hex_run(
                        s,
                        j + hex_num_count,
                        (6 - hex_num_count) as nat,
                    ),
                decreases 6 - hex_num_count,
            {
                proof {
                    self.lemma_pos();
                    lemma_next_index(s, j + hex_num_count);
                    assert(clen(ch) == 1);
                }
                self.stream.advance(len_utf8(ch));
                ch = self.stream.peek_char_infallible(0);
                hex_num_count = hex_num_count + 1;
            }
            proof {
                self.lemma_pos();
            }
            if hex_num_count > 0 {
                let pos = self.stream.get_position();
                proof {
                    lemma_cidx_bp(s, j);
                }
                let digits = self.stream.substring_to_curr(pos - hex_num_count);
                proof {
                    assert(digits@ == s.subrange(j, j + hex_num_count));
                    assert(all_hex(digits@) ==> digits@.len() * 4 <= usize::BITS) by {
                        assert(digits@.len() <= 6);
                        assert(usize::BITS >= 32);
                    }
                }
                if let Some(h) = hex_string_to_num(digits) {
                    let unit = (h % 0x10000) as u32;
                    if let Some(c) = char_from_u32(unit) {
                        proof {
                            vstd::utf8::char_u32_cast(c, unit);
                        }
                        string_push(result, c);
                    }
                } else {
                    proof {
                        assert(all_hex(digits@));
                    }
                }
                proof {
                    self.lemma_pos();
                }
                if ch == ' ' || ch == '\t' {
                    proof {
                        lemma_next_index(s, j + hex_num_count);
                    }
                    self.stream.advance(len_utf8(ch));
                } else {
                    let mut skipped = String::new();
                    self._newline(&mut skipped);
                }
                return true;
            }
            if ch != '\r' && ch != '\x0c' && ch != '\n' {
                proof {
                    lemma_next_index(s, j);
                }
                self.stream.advance(len_utf8(ch));
                string_push(result, ch);
                return true;
            } else if include_new_lines {
                return self._newline(result);
            }
            return false;
        }
        false
    }

    /// Takes the character at the position when it satisfies the class test `ok`.
    fn take_char_if(&mut self, result: &mut String, ok: bool) -> (r: bool)
        requires
            old(self).ready(),
            old(self).at_index(),
            ok ==> old(self).idx() < old(self).src().len(),
        ensures
            final(self).ready(),
            final(self).keeps(*old(self)),
            r == ok,
            r ==> final(self).stream@.cur() == Some(old(self).idx() + 1) && final(result)@ == old(result)@.push(old(self).src()[old(self).idx()]),
            !r ==> final(self).stream@ == old(self).stream@ && final(result)@ == old(result)@,
    {
        if ok {
            proof {
                self.lemma_pos();
                lemma_next_index(self.src(), self.idx());
            }
            let ch = self.stream.peek_char_infallible(0);
            self.stream.advance(len_utf8(ch));
            string_push(result, ch);
            return true;
        }
        false
    }

    fn _string_char(&mut self, close_quote: char, result: &mut String) -> (r: bool)
        requires
            old(self).ready(),
            old(self).at_index(),
        ensures
            final(self).ready(),
            final(self).keeps(*old(self)),
            r == (old(self).idx() < old(self).src().len() && is_string_char(
                old(self).src()[old(self).idx()],
                close_quote,
            )),
            r ==> final(self).stream@.cur() == Some(old(self).idx() + 1) && final(result)@ == old(result)@.push(old(self).src()[old(self).idx()]),
            !r ==> final(self).stream@ == old(self).stream@ && final(result)@ == old(result)@,
    {
        let ch = self.stream.peek_char_infallible(0);
        let ok = ch != '\0' && ch != close_quote && ch != '\\' && !exec_is_newline(ch);
        self.take_char_if(result, ok)
    }

    fn _unquoted_char(&mut self, result: &mut String) -> (r: bool)
        requires
            old(self).ready(),
            old(self).at_index(),
        ensures
            final(self).ready(),
            final(self).keeps(*old(self)),
            r == (old(self).idx() < old(self).src().len() && is_unquoted_char(
                old(self).src()[old(self).idx()],
            )),
            r ==> final(self).stream@.cur() == Some(old(self).idx() + 1) && final(result)@ == old(result)@.push(old(self).src()[old(self).idx()]),
            !r ==> final(self).stream@ == old(self).stream@ && final(result)@ == old(result)@,
    {
        let ok = match self.stream.peek_char(0) {
            Some(ch) => ch != '\0' && ch != '\\' && ch != '\'' && ch != '"' && ch != '(' && ch
                != ')' && !exec_is_ws(ch),
            None => false,
        };
        self.take_char_if(result, ok)
    }

    fn _ident_first_char(&mut self, result: &mut String) -> (r: bool)
        requires
            old(self).ready(),
            old(self).at_index(),
        ensures
            final(self).ready(),
            final(self).keeps(*old(self)),
            r == is_ident_first(at(old(self).src(), old(self).idx())),
            r ==> final(self).stream@.cur() == Some(old(self).idx() + 1) && final(result)@ == old(result)@.push(old(self).src()[old(self).idx()]),
            !r ==> final(self).stream@ == old(self).stream@ && final(result)@ == old(result)@,
    {
        let ch = self.stream.peek_char_infallible(0);
        let ok = exec_is_ident_first(ch);
        self.take_char_if(result, ok)
    }

    fn _minus(&mut self, result: &mut String) -> (r: bool)
        requires
            old(self).ready(),
            old(self).at_index(),
        ensures
            final(self).ready(),
            final(self).keeps(*old(self)),
            r == (at(old(self).src(), old(self).idx()) == '-'),
            r ==> final(self).stream@.cur() == Some(old(self).idx() + 1) && final(result)@ == old(result)@.push('-'),
            !r ==> final(self).stream@ == old(self).stream@ && final(result)@ == old(result)@,
    {
        let ch = self.stream.peek_char_infallible(0);
        self.take_char_if(result, ch == '-')
    }

    fn _ident_char(&mut self, result: &mut String) -> (r: bool)
        requires
            old(self).ready(),
            old(self).at_index(),
        ensures
            final(self).ready(),
            final(self).keeps(*old(self)),
            r == is_ident_char(at(old(self).src(), old(self).idx())),
            r ==> final(self).stream@.cur() == Some(old(self).idx() + 1) && final(result)@ == old(result)@.push(old(self).src()[old(self).idx()]),
            !r ==> final(self).stream@ == old(self).stream@ && final(result)@ == old(result)@,
    {
        let ch = self.stream.peek_char_infallible(0);
        let ok = exec_is_ident_char(ch);
        self.take_char_if(result, ok)
    }

    /// Name characters and escapes.
    fn _name(&mut self, result: &mut String) -> (r: bool)
        requires
            old(self).ready(),
            old(self).at_index(),
            !(read_loop(old(self).src(), old(self).idx(), LoopKind::Name) is Undefined),
        ensures
            final(self).ready(),
            final(self).keeps(*old(self)),
            read_loop(old(self).src(), old(self).idx(), LoopKind::Name) matches LoopOut::Done(
                e,
                o,
                m,
            ) && r == m && final(self).stream@.cur() == Some(e) && final(result)@ == old(result)@
                + o,
    {
        let ghost s = self.src();
        let ghost target = read_loop(s, self.idx(), LoopKind::Name);
        let ghost r0 = result@;
        let mut matched = false;
        proof {
            self.lemma_pos();
            assert(r0 + target->Done_1 =~= result@ + target->Done_1);
        }
        loop
            invariant_except_break
                self.ready(),
                self.keeps(*old(self)),
                self.at_index(),
                s == self.src(),
                0 <= self.idx() <= s.len(),
                read_loop(s, self.idx(), LoopKind::Name) matches LoopOut::Done(e, o, m) && e
                    == target->Done_0 && r0 + target->Done_1 == result@ + o && target->Done_2 == (
                matched || m),
            ensures
                self.ready(),
                self.keeps(*old(self)),
                self.stream@.cur() == Some(target->Done_0),
                result@ == r0 + target->Done_1,
                matched == target->Done_2,
            decreases s.len() - self.idx(),
        {
            let ghost k = self.idx();
            let ghost rk = result@;
            proof {
                self.lemma_pos();
            }
            if self._ident_char(result) {
                matched = true;
                proof {
                    assert(rk.push(s[k]) + read_loop(s, k + 1, LoopKind::Name)->Done_1 =~= rk + (
                    seq![s[k]] + read_loop(s, k + 1, LoopKind::Name)->Done_1));
                    lemma_read_loop_bounds(s, k + 1, LoopKind::Name);
                }
                continue ;
            }
            proof {
                lemma_escape_bounds(s, k, false);
            }
            if self._escape(result, false) {
                matched = true;
                proof {
                    let k2 = escape(s, k, false)->Match_0;
                    let o = escape(s, k, false)->Match_1;
                    assert(rk + o + read_loop(s, k2, LoopKind::Name)->Done_1 =~= rk + (o
                        + read_loop(s, k2, LoopKind::Name)->Done_1));
                }
                continue ;
            }
            proof {
                assert(rk + Seq::<char>::empty() =~= rk);
            }
            break ;
        }
        matched
    }

    /// Characters of an unquoted string and escapes; whether anything was read.
    fn _unquoted_string(&mut self, result: &mut String) -> (r: bool)
        requires
            old(self).ready(),
            old(self).at_index(),
            !(read_loop(old(self).src(), old(self).idx(), LoopKind::Unquoted) is Undefined),
        ensures
            final(self).ready(),
            final(self).keeps(*old(self)),
            read_loop(old(self).src(), old(self).idx(), LoopKind::Unquoted) matches LoopOut::Done(
                e,
                o,
                m,
            ) && r == m && final(self).stream@.cur() == Some(e) && final(result)@ == old(result)@
                + o,
    {
        let ghost s = self.src();
        let ghost target = read_loop(s, self.idx(), LoopKind::Unquoted);
        let ghost r0 = result@;
        let mut has_content = false;
        proof {
            self.lemma_pos();
            assert(r0 + target->Done_1 =~= result@ + target->Done_1);
        }
        loop
            invariant_except_break
                self.ready(),
                self.keeps(*old(self)),
                self.at_index(),
                s == self.src(),
                0 <= self.idx() <= s.len(),
                read_loop(s, self.idx(), LoopKind::Unquoted) matches LoopOut::Done(e, o, m) && e
                    == target->Done_0 && r0 + target->Done_1 == result@ + o && target->Done_2 == (
                has_content || m),
            ensures
                self.ready(),
                self.keeps(*old(self)),
                self.stream@.cur() == Some(target->Done_0),
                result@ == r0 + target->Done_1,
                has_content == target->Done_2,
            decreases s.len() - self.idx(),
        {
            let ghost k = self.idx();
            let ghost rk = result@;
            proof {
                self.lemma_pos();
            }
            if self._unquoted_char(result) {
                has_content = true;
                proof {
                    assert(rk.push(s[k]) + read_loop(s, k + 1, LoopKind::Unquoted)->Done_1 =~= rk
                        + (seq![s[k]] + read_loop(s, k + 1, LoopKind::Unquoted)->Done_1));
                    lemma_read_loop_bounds(s, k + 1, LoopKind::Unquoted);
                }
                continue ;
            }
            proof {
                lemma_escape_bounds(s, k, false);
            }
            if self._escape(result, false) {
                has_content = true;
                proof {
                    let k2 = escape(s, k, false)->Match_0;
                    let o = escape(s, k, false)->Match_1;
                    assert(rk + o + read_loop(s, k2, LoopKind::Unquoted)->Done_1 =~= rk + (o
                        + read_loop(s, k2, LoopKind::Unquoted)->Done_1));
                }
                continue ;
            }
            proof {
                assert(rk + Seq::<char>::empty() =~= rk);
            }
            break ;
        }
        has_content
    }

    /// A quoted string; `None` when the position is not at a quote.
    fn _string(&mut self, result: &mut String) -> (r: Option<TokenType>)
        requires
            old(self).ready(),
            old(self).at_index(),
            is_quote(at(old(self).src(), old(self).idx())) ==> string_tok(
                old(self).src(),
                old(self).idx(),
            ) is Some,
        ensures
            final(self).ready(),
            final(self).keeps(*old(self)),
            !is_quote(at(old(self).src(), old(self).idx())) ==> r is None && final(self).stream@
                == old(self).stream@ && final(result)@ == old(result)@,
            is_quote(at(old(self).src(), old(self).idx())) ==> (string_tok(
                old(self).src(),
                old(self).idx(),
            ) matches Some((tt, t, e)) && r == Some(tt) && final(result)@ == old(result)@ + t
                && final(self).pos() == e),
    {
        let ghost s = self.src();
        let ghost i = self.idx();
        let ghost r0 = result@;
        proof {
            self.lemma_pos();
            reveal(string_tok);
        }
        let c0 = self.stream.peek_char_infallible(0);
        if c0 == '\'' || c0 == '"' {
            proof {
                lemma_next_index(s, i);
            }
            let close_quote = self.stream.next_char();
            string_push(result, close_quote);
            let ghost j = self.idx();
            let ghost target = read_loop(s, j, LoopKind::Quoted(close_quote));
            proof {
                assert(j == i + 1);
                assert(result@ + target->Done_1 =~= r0.push(close_quote) + target->Done_1);
            }
            loop
                invariant_except_break
                    self.ready(),
                    self.keeps(*old(self)),
                    self.at_index(),
                    s == self.src(),
                    0 <= self.idx() <= s.len(),
                    read_loop(s, self.idx(), LoopKind::Quoted(close_quote)) matches LoopOut::Done(
                        e,
                        o,
                        m,
                    ) && e == target->Done_0 && r0.push(close_quote) + target->Done_1 == result@
                        + o,
                ensures
                    self.ready(),
                    self.keeps(*old(self)),
                    self.stream@.cur() == Some(target->Done_0),
                    result@ == r0.push(close_quote) + target->Done_1,
                decreases s.len() - self.idx(),
            {
                let ghost k = self.idx();
                let ghost rk = result@;
                proof {
                    self.lemma_pos();
                }
                if self._string_char(close_quote, result) {
                    proof {
                        assert(rk.push(s[k]) + read_loop(
                            s,
                            k + 1,
                            LoopKind::Quoted(close_quote),
                        )->Done_1 =~= rk + (seq![s[k]] + read_loop(
                            s,
                            k + 1,
                            LoopKind::Quoted(close_quote),
                        )->Done_1));
                        lemma_read_loop_bounds(s, k + 1, LoopKind::Quoted(close_quote));
                    }
                    continue ;
                }
                proof {
                    lemma_escape_bounds(s, k, true);
                }
                if self._escape(result, true) {
                    proof {
                        let k2 = escape(s, k, true)->Match_0;
                        let o = escape(s, k, true)->Match_1;
                        assert(rk + o + read_loop(s, k2, LoopKind::Quoted(close_quote))->Done_1
                            =~= rk + (o + read_loop(s, k2, LoopKind::Quoted(close_quote))->Done_1));
                    }
                    continue ;
                }
                proof {
                    assert(rk + Seq::<char>::empty() =~= rk);
                }
                break ;
            }
            proof {
                self.lemma_pos();
            }
            if self.stream.peek_char_infallible(0) == close_quote {
                proof {
                    let k = self.idx();
                    assert(k < s.len());
                    lemma_bp_step(s, k);
                    lemma_next_index(s, k);
                }
                self.stream.next_char();
                string_push(result, close_quote);
                proof {
                    assert(r0 + (seq![close_quote] + target->Done_1 + seq![close_quote])
                        =~= r0.push(close_quote) + target->Done_1 + seq![close_quote]);
                    assert(r0.push(close_quote) + target->Done_1 + seq![close_quote]
                        =~= (r0.push(close_quote) + target->Done_1).push(close_quote));
                }
                return Some(TokenType::String);
            }
            proof {
                assert(r0 + (seq![close_quote] + target->Done_1) =~= r0.push(close_quote)
                    + target->Done_1);
            }
            return Some(TokenType::BadString);
        }
        None
    }


    /// An unquoted string (a `url(...)` argument) at the position. When nothing can be
    /// read there the result is `None`; the position may still have moved past a
    /// backslash that precedes a line break.
    pub fn scan_unquoted_string(&mut self) -> (r: Option<Token>)
        requires
            old(self).ready(),
            old(self).at_index(),
            !(unquoted(old(self).src(), old(self).idx()) is Undefined),
        ensures
            final(self).ready(),
            final(self).keeps(*old(self)),
            unquoted(old(self).src(), old(self).idx()) matches LoopOut::Done(e, o, m) && final(self)
                .stream@.cur() == Some(e) && (m ==> (r matches Some(t) && token_is(
                t,
                out(old(self).src(), TokenType::UnquotedString, o, old(self).idx(), e),
            ))) && (!m ==> r is None),
    {
        let ghost s = self.src();
        let ghost i = self.idx();
        proof {
            self.lemma_pos();
            lemma_read_loop_bounds(s, i, LoopKind::Unquoted);
        }
        let offset = self.stream.get_position();
        let mut content = String::new();
        if self._unquoted_string(&mut content) {
            proof {
                lemma_cidx_some(s, self.pos());
                lemma_bp_mono(s, i, self.idx());
                assert(Seq::<char>::empty() + read_loop(s, i, LoopKind::Unquoted)->Done_1
                    =~= read_loop(s, i, LoopKind::Unquoted)->Done_1);
            }
            return Some(self.finish_token(offset, TokenType::UnquotedString, content));
        }
        None
    }

    /// Whether scanning completes from every character boundary of the text: it does
    /// unless the text ends with a backslash.
    pub fn scan_defined(&self) -> (r: bool)
        requires
            self.ready(),
        ensures
            r == no_dangling_escape(self.src()),
            r ==> forall|b: int|
                cidx(self.src(), b) is Some ==> #[trigger] spec_scan(
                    self.src(),
                    self.ignore_whitespace,
                    self.ignore_comments,
                    b,
                ) is Some,
    {
        let n = self.stream.chars.len();
        let r = !(n > 0 && self.stream.chars[n - 1] == '\\');
        proof {
            if r {
                assert forall|b: int| cidx(self.src(), b) is Some implies #[trigger] spec_scan(
                    self.src(),
                    self.ignore_whitespace,
                    self.ignore_comments,
                    b,
                ) is Some by {
                    lemma_scan_defined(self.src(), self.ignore_whitespace, self.ignore_comments, b);
                }
            }
        }
        r
    }

    /// The next token; whitespace and comments are skipped while ignored.
    pub fn scan(&mut self) -> (r: Token)
        requires
            old(self).ready(),
            spec_scan(
                old(self).src(),
                old(self).ignore_whitespace,
                old(self).ignore_comments,
                old(self).pos(),
            ) is Some,
        ensures
            final(self).ready(),
            final(self).keeps(*old(self)),
            token_is(
                r,
                spec_scan(
                    old(self).src(),
                    old(self).ignore_whitespace,
                    old(self).ignore_comments,
                    old(self).pos(),
                )->0,
            ),
            final(self).pos() == spec_scan(
                old(self).src(),
                old(self).ignore_whitespace,
                old(self).ignore_comments,
                old(self).pos(),
            )->0.end,
            final(self).at_index(),
            old(self).pos() <= r.offset,
            final(self).pos() <= final(self).stream@.length,
            r.token_type == TokenType::EOF <==> r.length == 0,
            r.token_type == TokenType::EOF ==> r.offset == final(self).stream@.length && r.text@.len()
                == 0,
    {
        let ghost s = self.src();
        let ghost b = self.pos();
        proof {
            lemma_scan_progress(s, self.ignore_whitespace, self.ignore_comments, b);
            lemma_scan_eof(s, self.ignore_whitespace, self.ignore_comments, b);
            lemma_bp_full(s);
        }
        let r = self.scan_token();
        proof {
            lemma_cidx_some(s, self.pos());
            lemma_bp_mono(s, self.idx(), s.len() as int);
        }
        r
    }

    fn scan_token(&mut self) -> (r: Token)
        requires
            old(self).ready(),
            spec_scan(
                old(self).src(),
                old(self).ignore_whitespace,
                old(self).ignore_comments,
                old(self).pos(),
            ) is Some,
        ensures
            final(self).ready(),
            final(self).keeps(*old(self)),
            token_is(
                r,
                spec_scan(
                    old(self).src(),
                    old(self).ignore_whitespace,
                    old(self).ignore_comments,
                    old(self).pos(),
                )->0,
            ),
            final(self).pos() == spec_scan(
                old(self).src(),
                old(self).ignore_whitespace,
                old(self).ignore_comments,
                old(self).pos(),
            )->0.end,
    {
        let ghost s = self.src();
        let trivia_token = self.trivia();
        if let Some(t) = trivia_token {
            return t;
        }
        proof {
            self.lemma_pos();
            lemma_cidx_bp(s, self.idx());
            lemma_bp_full(s);
            if self.idx() < s.len() {
                lemma_bp_mono(s, self.idx(), s.len() as int);
            }
        }
        let offset = self.stream.get_position();
        if self.stream.eos() {
            return self.finish_token_auto_text(offset, TokenType::EOF);
        }
        self.scan_next(offset)
    }

    #[verifier::spinoff_prover]
    #[verifier::rlimit(40)]
    fn _unicode_range(&mut self) -> (r: bool)
        requires
            old(self).ready(),
            old(self).at_index(),
        ensures
            final(self).ready(),
            final(self).keeps(*old(self)),
            final(self).at_index(),
            (unicode_range(old(self).src(), old(self).idx()) matches Some(e) ==> r && final(self).stream@.cur() == Some(e)),
            unicode_range(old(self).src(), old(self).idx()) is None ==> !r,
    {
        let ghost s = self.src();
        let ghost i = self.idx();
        proof {
            self.lemma_pos();
            if i < s.len() {
                lemma_next_index(s, i);
            }
        }
        if self.stream.advance_if_char('+') {
            let hex_char = (|ch: char| -> (b: bool)
                ensures
                    b == is_hex(ch),
                { exec_is_hex(ch) });
            let question_char = (|ch: char| -> (b: bool)
                ensures
                    b == (ch == '?'),
                { ch == '?' });
            let a = self.stream.advance_while_char(hex_char);
            let ghost h = self.idx();
            proof {
                assert forall|t: int| i + 1 <= t < h implies class_has(
                    CharClass::Hex,
                    #[trigger] s[t],
                ) by {}
                lemma_skip_exact(s, i + 1, h, CharClass::Hex);
                lemma_bp_ascii(s, i + 1, h);
            }
            let b = self.stream.advance_while_char(question_char);
            let ghost q = self.idx();
            proof {
                assert forall|t: int| h <= t < q implies class_has(
                    CharClass::Question,
                    #[trigger] s[t],
                ) by {}
                lemma_skip_exact(s, h, q, CharClass::Question);
                lemma_bp_ascii(s, h, q);
                self.lemma_pos();
            }
            let code_points = a + b;
            if 1 <= code_points && code_points <= 6 {
                proof {
                    if q < s.len() {
                        lemma_next_index(s, q);
                    }
                }
                if self.stream.advance_if_char('-') {
                    let digits = self.stream.advance_while_char(hex_char);
                    proof {
                        let d = self.idx();
                        assert forall|t: int| q + 1 <= t < d implies class_has(
                            CharClass::Hex,
                            #[trigger] s[t],
                        ) by {}
                        lemma_skip_exact(s, q + 1, d, CharClass::Hex);
                        lemma_bp_ascii(s, q + 1, d);
                    }
                    if 1 <= digits && digits <= 6 {
                        return true;
                    }
                } else {
                    return true;
                }
            }
        }
        false
    }

    /// A unicode range (`+` and hex digits after a `u`) at the position; the position
    /// is restored when there is none.
    pub fn try_scan_unicode(&mut self) -> (r: Option<Token>)
        requires
            old(self).ready(),
            old(self).at_index(),
        ensures
            final(self).ready(),
            final(self).keeps(*old(self)),
            match unicode_range(old(self).src(), old(self).idx()) {
                Some(e) => r matches Some(t) && token_is(
                    t,
                    out_raw(old(self).src(), TokenType::UnicodeRange, old(self).idx(), e),
                ) && final(self).stream@.cur() == Some(e),
                None => r is None && final(self).pos() == old(self).pos(),
            },
    {
        let ghost s = self.src();
        let ghost i = self.idx();
        proof {
            self.lemma_pos();
            lemma_cidx_bp(s, i);
            lemma_bp_full(s);
        }
        let offset = self.stream.get_position();
        if !self.stream.eos() && self._unicode_range() {
            proof {
                lemma_unicode_range_bounds(s, i);
                lemma_cidx_some(s, self.pos());
                lemma_bp_mono(s, i, self.idx());
            }
            return Some(self.finish_token_auto_text(offset, TokenType::UnicodeRange));
        }
        self.stream.set_position(offset);
        None
    }

    /// Finishes an identifier whose start, `pre`, has been read.
    fn ident_rest(&mut self, result: &mut String, Ghost(r0): Ghost<Seq<char>>, Ghost(pre): Ghost<
        Seq<char>,
    >)
        requires
            old(self).ready(),
            old(self).at_index(),
            old(result)@ == r0 + pre,
            !(read_loop(old(self).src(), old(self).idx(), LoopKind::Name) is Undefined),
        ensures
            final(self).ready(),
            final(self).keeps(*old(self)),
            read_loop(old(self).src(), old(self).idx(), LoopKind::Name) matches LoopOut::Done(
                e,
                o,
                _,
            ) && final(self).stream@.cur() == Some(e) && final(result)@ == r0 + (pre + o),
    {
        let ghost s = self.src();
        let ghost k = self.idx();
        self._name(result);
        proof {
            let o = read_loop(s, k, LoopKind::Name)->Done_1;
            assert((r0 + pre) + o =~= r0 + (pre + o));
        }
    }

    /// An identifier; on failure the position is restored.
    fn ident(&mut self, result: &mut String) -> (r: bool)
        requires
            old(self).ready(),
            old(self).at_index(),
            !(ident(old(self).src(), old(self).idx()) is Undefined),
        ensures
            final(self).ready(),
            final(self).keeps(*old(self)),
            match ident(old(self).src(), old(self).idx()) {
                IdentOut::Found(e, c) => r && final(self).stream@.cur() == Some(e)
                    && final(result)@ == old(result)@ + c,
                IdentOut::Fail => !r && final(self).stream@ == old(self).stream@,
                IdentOut::Undefined => false,
            },
    {
        let ghost s = self.src();
        let ghost i = self.idx();
        let ghost r0 = result@;
        proof {
            self.lemma_pos();
        }
        let pos = self.stream.get_position();
        let has_minus = self._minus(result);
        if has_minus {
            proof {
                self.lemma_pos();
                lemma_escape_bounds(s, i + 1, false);
            }
            let ghost pre: Seq<char>;
            let mut first = self._minus(result);
            if first {
                proof {
                    pre = seq!['-', '-'];
                    assert(result@ =~= r0 + pre);
                }
            } else {
                first = self._ident_first_char(result);
                if first {
                    proof {
                        pre = seq!['-', s[i + 1]];
                        assert(result@ =~= r0 + pre);
                    }
                } else {
                    first = self._escape(result, false);
                    proof {
                        if first {
                            pre = seq!['-'] + escape(s, i + 1, false)->Match_1;
                            assert(result@ =~= r0 + pre);
                        }
                    }
                }
            }
            if first {
                proof {
                    self.lemma_pos();
                }
                self.ident_rest(result, Ghost(r0), Ghost(pre));
                return true;
            }
        } else {
            proof {
                lemma_escape_bounds(s, i, false);
            }
            let ghost pre: Seq<char>;
            let mut first = self._ident_first_char(result);
            if first {
                proof {
                    pre = seq![s[i]];
                    assert(result@ =~= r0 + pre);
                }
            } else {
                first = self._escape(result, false);
                proof {
                    if first {
                        pre = escape(s, i, false)->Match_1;
                        assert(result@ =~= r0 + pre);
                    }
                }
            }
            if first {
                proof {
                    self.lemma_pos();
                }
                self.ident_rest(result, Ghost(r0), Ghost(pre));
                return true;
            }
        }
        self.stream.set_position(pos);
        false
    }

    /// A number: digits with `.` parts, or `.` followed by digits.
    fn _number(&mut self) -> (r: bool)
        requires
            old(self).ready(),
            old(self).at_index(),
        ensures
            final(self).ready(),
            final(self).keeps(*old(self)),
            match number(old(self).src(), old(self).idx()) {
                Some(j) => r && final(self).stream@.cur() == Some(j),
                None => !r && final(self).stream@ == old(self).stream@,
            },
    {
        let ghost s = self.src();
        let ghost i = self.idx();
        proof {
            self.lemma_pos();
        }
        let npeek_char: Option<char>;
        let mut npeek: usize = 0;
        if self.stream.peek_char_infallible(0) == '.' {
            npeek = 1;
            npeek_char = Some('.');
        } else {
            npeek_char = None;
        }
        let ch = self.stream.peek_char_infallible(npeek);
        if exec_is_digit(ch) {
            let lead = match npeek_char {
                Some(c) => len_utf8(c),
                None => 0,
            };
            proof {
                if npeek == 1 {
                    lemma_next_index(s, i);
                    lemma_next_index(s, i + 1);
                } else {
                    lemma_next_index(s, i);
                }
            }
            self.stream.advance(lead + len_utf8(ch));
            let np = npeek;
            let ghost k = self.idx();
            let cls = if np == 0 {
                CharClass::DigitOrDot
            } else {
                CharClass::Digit
            };
            let number_char = (|c: char| -> (b: bool)
                ensures
                    b == (is_digit(c) || (np == 0 && c == '.')),
                { exec_is_digit(c) || (np == 0 && c == '.') });
            self.stream.advance_while_char(number_char);
            proof {
                let j = self.idx();
                assert forall|t: int| k <= t < j implies class_has(cls, #[trigger] s[t]) by {}
                lemma_skip_exact(s, k, j, cls);
            }
            return true;
        }
        false
    }

    fn _whitespace(&mut self) -> (r: bool)
        requires
            old(self).ready(),
            old(self).at_index(),
        ensures
            final(self).ready(),
            final(self).keeps(*old(self)),
            final(self).stream@.cur() == Some(
                skip_while(old(self).src(), old(self).idx(), CharClass::Whitespace),
            ),
            r == (skip_while(old(self).src(), old(self).idx(), CharClass::Whitespace) > old(self).idx()),
    {
        let ghost s = self.src();
        let ghost i = self.idx();
        let ws_char = (|ch: char| -> (b: bool)
            ensures
                b == is_ws(ch),
            { exec_is_ws(ch) });
        let n = self.stream.advance_while_char(ws_char);
        proof {
            let j = self.idx();
            assert forall|t: int| i <= t < j implies class_has(
                CharClass::Whitespace,
                #[trigger] s[t],
            ) by {}
            lemma_skip_exact(s, i, j, CharClass::Whitespace);
            if j > i {
                lemma_bp_mono(s, i, j);
            }
        }
        n > 0
    }

    /// A comment `/* ... */`; an unclosed one runs to the end of the text.
    fn comment(&mut self) -> (r: bool)
        requires
            old(self).ready(),
            old(self).at_index(),
        ensures
            final(self).ready(),
            final(self).keeps(*old(self)),
            r == starts_comment(old(self).src(), old(self).idx()),
            r ==> final(self).stream@.cur() == Some(
                comment_end(old(self).src(), old(self).idx() + 2, false),
            ),
            !r ==> final(self).stream@ == old(self).stream@,
    {
        let ghost s = self.src();
        let ghost i = self.idx();
        proof {
            reveal_strlit("/*");
            assert("/*"@ =~= seq!['/', '*']);
            self.lemma_pos();
        }
        if self.stream.advance_if_chars("/*") {
            let mut success = false;
            let mut hot = false;
            proof {
                self.lemma_pos();
                lemma_cidx_bp(s, i + 2);
            }
            loop
                invariant_except_break
                    self.ready(),
                    self.keeps(*old(self)),
                    self.at_index(),
                    s == self.src(),
                    0 <= self.idx() <= s.len(),
                    !success,
                    comment_end(s, self.idx(), hot) == comment_end(s, i + 2, false),
                ensures
                    self.ready(),
                    self.keeps(*old(self)),
                    self.at_index(),
                    s == self.src(),
                    success ==> self.idx() < s.len() && comment_end(s, i + 2, false) == self.idx()
                        + 1 && s[self.idx()] == '/',
                    !success ==> self.idx() == comment_end(s, i + 2, false),
                decreases s.len() - self.idx(),
            {
                proof {
                    self.lemma_pos();
                    lemma_bp_full(s);
                }
                if self.stream.eos() {
                    break ;
                }
                proof {
                    if self.idx() >= s.len() {
                        assert(self.idx() == s.len());
                        assert(self.pos() == blen(s));
                    }
                }
                let ch = self.stream.curr_char();
                if hot && ch == '/' {
                    success = true;
                    break ;
                }
                hot = ch == '*';
                proof {
                    lemma_next_index(s, self.idx());
                }
                self.stream.advance(len_utf8(ch));
            }
            if success {
                proof {
                    self.lemma_pos();
                    lemma_next_index(s, self.idx());
                }
                self.stream.advance(1);
            }
            return true;
        }
        false
    }

    /// Whitespace and comments: the first one that is not ignored becomes a token.
    fn trivia(&mut self) -> (r: Option<Token>)
        requires
            old(self).ready(),
            old(self).at_index(),
        ensures
            final(self).ready(),
            final(self).keeps(*old(self)),
            match trivia(
                old(self).src(),
                old(self).ignore_whitespace,
                old(self).ignore_comments,
                old(self).idx(),
            ) {
                TriviaOut::Token(tt, a, c) => r matches Some(t) && token_is(
                    t,
                    out_raw(old(self).src(), tt, a, c),
                ) && final(self).stream@.cur() == Some(c),
                TriviaOut::Rest(j) => r is None && final(self).stream@.cur() == Some(j),
            },
    {
        let ghost s = self.src();
        let ghost target = trivia(s, self.ignore_whitespace, self.ignore_comments, self.idx());
        let mut offset;
        loop
            invariant
                self.ready(),
                self.keeps(*old(self)),
                self.at_index(),
                s == self.src(),
                0 <= self.idx() <= s.len(),
                trivia(s, self.ignore_whitespace, self.ignore_comments, self.idx()) == target,
                target == trivia(
                    old(self).src(),
                    old(self).ignore_whitespace,
                    old(self).ignore_comments,
                    old(self).idx(),
                ),
            decreases s.len() - self.idx(),
        {
            let ghost k = self.idx();
            proof {
                self.lemma_pos();
                lemma_skip_bounds(s, k, CharClass::Whitespace);
                lemma_cidx_bp(s, k);
            }
            offset = self.stream.get_position();
            if self._whitespace() {
                if !self.ignore_whitespace {
                    proof {
                        let j = self.idx();
                        lemma_bp_mono(s, k, j);
                        lemma_cidx_some(s, self.pos());
                    }
                    return Some(self.finish_token_auto_text(offset, TokenType::Whitespace));
                }
            } else {
                proof {
                    if starts_comment(s, k) {
                        lemma_comment_bounds(s, k + 2, false);
                    }
                }
                if self.comment() {
                    if !self.ignore_comments {
                        proof {
                            let j = self.idx();
                            lemma_bp_mono(s, k, j);
                            lemma_cidx_some(s, self.pos());
                        }
                        return Some(self.finish_token_auto_text(offset, TokenType::Comment));
                    }
                } else {
                    return None;
                }
            }
        }
    }


    /// A token at the position, which is before the end and at no whitespace or comment.
    fn scan_next(&mut self, offset: usize) -> (r: Token)
        requires
            old(self).ready(),
            old(self).at_index(),
            offset == old(self).pos(),
            old(self).idx() < old(self).src().len(),
            scan_next(old(self).src(), old(self).idx()) is Some,
        ensures
            final(self).ready(),
            final(self).keeps(*old(self)),
            token_is(r, scan_next(old(self).src(), old(self).idx())->0),
            final(self).pos() == scan_next(old(self).src(), old(self).idx())->0.end,
    {
        let ghost s = self.src();
        let ghost i = self.idx();
        proof {
            self.lemma_pos();
            lemma_cidx_bp(s, i);
            reveal_strlit("<!--");
            reveal_strlit("-->");
            assert("<!--"@ =~= seq!['<', '!', '-', '-']);
            assert("-->"@ =~= seq!['-', '-', '>']);
        }
        if self.stream.advance_if_chars("<!--") {
            proof {
                lemma_cidx_bp(s, i + 4);
                lemma_bp_mono(s, i, i + 4);
            }
            return self.finish_token_auto_text(offset, TokenType::CDO);
        }
        if self.stream.advance_if_chars("-->") {
            proof {
                lemma_cidx_bp(s, i + 3);
                lemma_bp_mono(s, i, i + 3);
            }
            return self.finish_token_auto_text(offset, TokenType::CDC);
        }
        let mut content = String::new();
        if self.ident(&mut content) {
            proof {
                assert(Seq::<char>::empty() + ident(s, i)->Found_1 =~= ident(s, i)->Found_1);
                lemma_cidx_some(s, self.pos());
                lemma_ident_bounds(s, i);
                lemma_bp_mono(s, i, self.idx());
            }
            return self.finish_token(offset, TokenType::Ident, content);
        }
        self.scan_rest(offset)
    }

    /// The tokens tried after identifiers.
    fn scan_rest(&mut self, offset: usize) -> (r: Token)
        requires
            old(self).ready(),
            old(self).at_index(),
            offset == old(self).pos(),
            old(self).idx() < old(self).src().len(),
            scan_rest(old(self).src(), old(self).idx()) is Some,
        ensures
            final(self).ready(),
            final(self).keeps(*old(self)),
            token_is(r, scan_rest(old(self).src(), old(self).idx())->0),
            final(self).pos() == scan_rest(old(self).src(), old(self).idx())->0.end,
    {
        let ghost s = self.src();
        let ghost i = self.idx();
        proof {
            self.lemma_pos();
            lemma_cidx_bp(s, i);
        }
        proof {
            if i < s.len() {
                lemma_next_index(s, i);
            }
        }
        if self.stream.advance_if_char('@') {
            return self.scan_prefixed(offset, '@', TokenType::AtKeyword);
        }
        if self.stream.advance_if_char('#') {
            return self.scan_prefixed(offset, '#', TokenType::Hash);
        }
        if self.stream.advance_if_char('!') {
            proof {
                lemma_next_index(s, i);
                lemma_bp_mono(s, i, i + 1);
            }
            return self.finish_token_auto_text(offset, TokenType::Exclamation);
        }
        if self._number() {
            return self.scan_numeric(offset);
        }
        self.scan_punct(offset)
    }

    /// Strings, punctuation, attribute operators and single characters.
    fn scan_punct(&mut self, offset: usize) -> (r: Token)
        requires
            old(self).ready(),
            old(self).at_index(),
            offset == old(self).pos(),
            old(self).idx() < old(self).src().len(),
            scan_rest(old(self).src(), old(self).idx()) is Some,
            at(old(self).src(), old(self).idx()) != '@',
            at(old(self).src(), old(self).idx()) != '#',
            at(old(self).src(), old(self).idx()) != '!',
            number(old(self).src(), old(self).idx()) is None,
        ensures
            final(self).ready(),
            final(self).keeps(*old(self)),
            token_is(r, scan_rest(old(self).src(), old(self).idx())->0),
            final(self).pos() == scan_rest(old(self).src(), old(self).idx())->0.end,
    {
        let ghost s = self.src();
        let ghost i = self.idx();
        proof {
            self.lemma_pos();
            lemma_cidx_bp(s, i);
        }
        let mut content = String::new();
        let token_type = self._string(&mut content);
        if let Some(tt) = token_type {
            proof {
                lemma_string_tok_end(s, i);
                let (_, t, _) = string_tok(s, i)->0;
                assert(Seq::<char>::empty() + t =~= t);
            }
            return self.finish_token(offset, tt, content);
        }
        let c0 = self.stream.peek_char_infallible(0);
        let token_type = static_token(c0);
        if let Some(tt) = token_type {
            let advance_bytes = len_utf8(self.stream.peek_char_infallible(0));
            proof {
                lemma_next_index(s, i);
                lemma_bp_mono(s, i, i + 1);
            }
            self.stream.advance(advance_bytes);
            return self.finish_token_auto_text(offset, tt);
        }
        self.scan_operator(offset)
    }

    /// Attribute operators and single characters.
    fn scan_operator(&mut self, offset: usize) -> (r: Token)
        requires
            old(self).ready(),
            old(self).at_index(),
            offset == old(self).pos(),
            old(self).idx() < old(self).src().len(),
            scan_rest(old(self).src(), old(self).idx()) is Some,
            at(old(self).src(), old(self).idx()) != '@',
            at(old(self).src(), old(self).idx()) != '#',
            at(old(self).src(), old(self).idx()) != '!',
            number(old(self).src(), old(self).idx()) is None,
            !is_quote(at(old(self).src(), old(self).idx())),
            spec_static_token(at(old(self).src(), old(self).idx())) is None,
        ensures
            final(self).ready(),
            final(self).keeps(*old(self)),
            token_is(r, scan_rest(old(self).src(), old(self).idx())->0),
            final(self).pos() == scan_rest(old(self).src(), old(self).idx())->0.end,
    {
        let ghost s = self.src();
        let ghost i = self.idx();
        proof {
            self.lemma_pos();
            lemma_cidx_bp(s, i);
        }
        let c0 = self.stream.peek_char_infallible(0);
        let c1 = self.stream.peek_char_infallible(1);
        proof {
            if c1 == '=' && spec_operator(c0) is Some {
                lemma_next_index(s, i);
                lemma_next_index(s, i + 1);
                lemma_bp_mono(s, i, i + 2);
            }
        }
        if c0 == '~' && c1 == '=' {
            self.stream.advance(2);
            return self.finish_token_auto_text(offset, TokenType::Includes);
        }
        if c0 == '|' && c1 == '=' {
            self.stream.advance(2);
            return self.finish_token_auto_text(offset, TokenType::Dashmatch);
        }
        if c0 == '*' && c1 == '=' {
            self.stream.advance(2);
            return self.finish_token_auto_text(offset, TokenType::SubstringOperator);
        }
        if c0 == '^' && c1 == '=' {
            self.stream.advance(2);
            return self.finish_token_auto_text(offset, TokenType::PrefixOperator);
        }
        if c0 == '$' && c1 == '=' {
            self.stream.advance(2);
            return self.finish_token_auto_text(offset, TokenType::SuffixOperator);
        }
        proof {
            lemma_bp_mono(s, 0, s.len() as int);
            lemma_bp_full(s);
        }
        proof {
            lemma_next_index(s, i);
        }
        self.stream.next_char();
        proof {
            lemma_bp_mono(s, i, i + 1);
        }
        self.finish_token_auto_text(offset, TokenType::Delim)
    }

    /// `@` or `#` (just read) followed by a name.
    fn scan_prefixed(&mut self, offset: usize, prefix: char, named: TokenType) -> (r: Token)
        requires
            old(self).ready(),
            old(self).at_index(),
            cidx(old(self).src(), offset as int) matches Some(i) && i + 1 == old(self).idx() && i
                < old(self).src().len() && old(self).src()[i] == prefix,
            named == TokenType::AtKeyword || named == TokenType::Hash,
            scan_prefixed(old(self).src(), old(self).idx() - 1, named) is Some,
        ensures
            final(self).ready(),
            final(self).keeps(*old(self)),
            token_is(r, scan_prefixed(old(self).src(), old(self).idx() - 1, named)->0),
            final(self).pos() == scan_prefixed(old(self).src(), old(self).idx() - 1, named)->0.end,
    {
        let ghost s = self.src();
        let ghost i = self.idx() - 1;
        proof {
            reveal(scan_prefixed);
            self.lemma_pos();
            lemma_cidx_some(s, offset as int);
            lemma_read_loop_bounds(s, i + 1, LoopKind::Name);
        }
        let mut content = String::new();
        string_push(&mut content, prefix);
        if self._name(&mut content) {
            proof {
                lemma_cidx_some(s, self.pos());
                lemma_bp_mono(s, i, self.idx());
                assert(Seq::<char>::empty().push(prefix) + read_loop(s, i + 1, LoopKind::Name)->Done_1
                    =~= seq![s[i]] + read_loop(s, i + 1, LoopKind::Name)->Done_1);
            }
            if named == TokenType::AtKeyword && is_charset(content.as_str()) {
                return self.finish_token(offset, TokenType::Charset, content);
            }
            return self.finish_token(offset, named, content);
        }
        proof {
            lemma_cidx_some(s, self.pos());
            lemma_bp_mono(s, i, self.idx());
        }
        self.finish_token_auto_text(offset, TokenType::Delim)
    }

    /// A number (just read, starting at `offset`) followed by `%`, a unit, or nothing.
    fn scan_numeric(&mut self, offset: usize) -> (r: Token)
        requires
            old(self).ready(),
            old(self).at_index(),
            cidx(old(self).src(), offset as int) matches Some(i) && number(old(self).src(), i)
                == Some(old(self).idx()) && scan_numeric(old(self).src(), i, old(self).idx()) is Some,
        ensures
            final(self).ready(),
            final(self).keeps(*old(self)),
            token_is(
                r,
                scan_numeric(
                    old(self).src(),
                    cidx(old(self).src(), offset as int)->0,
                    old(self).idx(),
                )->0,
            ),
            final(self).pos() == scan_numeric(
                old(self).src(),
                cidx(old(self).src(), offset as int)->0,
                old(self).idx(),
            )->0.end,
    {
        let ghost s = self.src();
        let ghost j = self.idx();
        let ghost i = cidx(s, offset as int)->0;
        proof {
            reveal(scan_numeric);
            self.lemma_pos();
            lemma_cidx_some(s, offset as int);
            lemma_number_bounds(s, i);
            lemma_bp_mono(s, i, j);
        }
        let pos = self.stream.get_position();
        let mut content = self.stream.substring(offset, pos).to_owned();
        if self.stream.advance_if_char('%') {
            proof {
                lemma_next_index(s, j);
                lemma_bp_mono(s, i, j + 1);
            }
            return self.finish_token_auto_text(offset, TokenType::Percentage);
        }
        if self.ident(&mut content) {
            proof {
                lemma_cidx_some(s, self.pos());
                lemma_ident_bounds(s, j);
                lemma_bp_mono(s, i, self.idx());
                lemma_bp_mono(s, j, self.idx());
                lemma_cidx_bp(s, j);
            }
            let dim = str_to_lowercase(self.stream.substring_to_curr(pos));
            let token_type = static_unit_table(dim.as_str());
            if let Some(tt) = token_type {
                return self.finish_token(offset, tt, content);
            }
            return self.finish_token(offset, TokenType::Dimension, content);
        }
        self.finish_token_auto_text(offset, TokenType::Num)
    }

}


/// Whether `t` is `@charset`.
fn is_charset(t: &str) -> (r: bool)
    ensures
        r == (t@ =~= charset_kw()),
{
    let v = collect_chars(t);
    eq_chars(&v, &['@', 'c', 'h', 'a', 'r', 's', 'e', 't'])
}


impl Default for Scanner {
    fn default() -> (r: Self)
        ensures
            r.ready(),
            r.src() == Seq::<char>::empty(),
            r.pos() == 0,
            r.ignore_comments,
            r.ignore_whitespace,
            !r.in_url,
    {
        Scanner::new(String::new(), true, true, false)
    }
}

} // verus!
