//! Character classes, UTF-8 byte lengths and the few `std` string operations
//! the scanner relies on.
use vstd::prelude::*;

verus! {

/// Number of bytes the UTF-8 encoding of `c` takes.
pub open spec fn clen(c: char) -> nat {
    if (c as u32) < 0x80 {
        1
    } else if (c as u32) < 0x800 {
        2
    } else if (c as u32) < 0x10000 {
        3
    } else {
        4
    }
}

/// Number of bytes the UTF-8 encoding of `s` takes.
pub open spec fn blen(s: Seq<char>) -> nat
    decreases s.len(),
{
    if s.len() == 0 {
        0
    } else {
        blen(s.drop_last()) + clen(s.last())
    }
}

/// Byte offset of the character with index `i` of `s`.
pub open spec fn bp(s: Seq<char>, i: int) -> int {
    blen(s.take(i)) as int
}

/// The character index whose byte offset is `b`, when `b` lies on a character boundary
/// (the end of `s` counts as a boundary).
pub open spec fn cidx(s: Seq<char>, b: int) -> Option<int> {
    if exists|i: int| 0 <= i <= s.len() && #[trigger] bp(s, i) == b {
        Some(choose|i: int| 0 <= i <= s.len() && #[trigger] bp(s, i) == b)
    } else {
        None
    }
}

/// The character at index `j`, or `'\0'` past either end.
pub open spec fn at(s: Seq<char>, j: int) -> char {
    if 0 <= j < s.len() {
        s[j]
    } else {
        '\0'
    }
}

pub proof fn lemma_blen_push(s: Seq<char>, c: char)
    ensures
        blen(s.push(c)) == blen(s) + clen(c),
{
    assert(s.push(c).drop_last() =~= s);
}

pub proof fn lemma_blen_concat(a: Seq<char>, b: Seq<char>)
    ensures
        blen(a + b) == blen(a) + blen(b),
    decreases b.len(),
{
    if b.len() == 0 {
        assert(a + b =~= a);
    } else {
        lemma_blen_concat(a, b.drop_last());
        assert((a + b).drop_last() =~= a + b.drop_last());
    }
}

pub proof fn lemma_bp_step(s: Seq<char>, i: int)
    requires
        0 <= i < s.len(),
    ensures
        bp(s, i + 1) == bp(s, i) + clen(s[i]),
{
    assert(s.take(i + 1).drop_last() =~= s.take(i));
}

pub proof fn lemma_bp_zero(s: Seq<char>)
    ensures
        bp(s, 0) == 0,
{
    assert(s.take(0).len() == 0);
}

pub proof fn lemma_bp_full(s: Seq<char>)
    ensures
        bp(s, s.len() as int) == blen(s),
{
    assert(s.take(s.len() as int) =~= s);
}

/// Byte offsets grow by at least one per character.
pub proof fn lemma_bp_mono(s: Seq<char>, i: int, j: int)
    requires
        0 <= i <= j <= s.len(),
    ensures
        bp(s, i) + (j - i) <= bp(s, j),
        i < j ==> bp(s, i) < bp(s, j),
    decreases j - i,
{
    if i < j {
        lemma_bp_mono(s, i, j - 1);
        lemma_bp_step(s, j - 1);
    }
}

/// The byte length of a slice is the difference of the byte offsets of its ends.
pub proof fn lemma_bp_sub(s: Seq<char>, i: int, j: int)
    requires
        0 <= i <= j <= s.len(),
    ensures
        bp(s, j) - bp(s, i) == blen(s.subrange(i, j)),
{
    assert(s.take(j) =~= s.take(i) + s.subrange(i, j));
    lemma_blen_concat(s.take(i), s.subrange(i, j));
}

pub proof fn lemma_cidx_bp(s: Seq<char>, i: int)
    requires
        0 <= i <= s.len(),
    ensures
        cidx(s, bp(s, i)) == Some(i),
{
    let b = bp(s, i);
    assert(0 <= i <= s.len() && bp(s, i) == b);
    let k = choose|k: int| 0 <= k <= s.len() && #[trigger] bp(s, k) == b;
    if k < i {
        lemma_bp_mono(s, k, i);
    } else if i < k {
        lemma_bp_mono(s, i, k);
    }
}

pub proof fn lemma_cidx_some(s: Seq<char>, b: int)
    requires
        cidx(s, b) is Some,
    ensures
        0 <= cidx(s, b)->0 <= s.len(),
        bp(s, cidx(s, b)->0) == b,
{
}

/// `blen` agrees with the length of vstd's UTF-8 encoding.
pub proof fn lemma_blen_encode(s: Seq<char>)
    ensures
        vstd::utf8::encode_utf8(s).len() == blen(s),
    decreases s.len(),
{
    if s.len() > 0 {
        lemma_blen_encode(s.drop_first());
        assert(s =~= seq![s[0]] + s.drop_first());
        lemma_blen_concat(seq![s[0]], s.drop_first());
        lemma_blen_push(Seq::<char>::empty(), s[0]);
        assert(seq![s[0]] =~= Seq::<char>::empty().push(s[0]));
        assert(blen(Seq::<char>::empty()) == 0);
        vstd::utf8::char_is_scalar(s[0]);
        assert(vstd::utf8::encode_scalar(s[0] as u32).len() == clen(s[0]));
    }
}

/// `str::len`: the byte length of a string, which like any allocation is at most
/// `isize::MAX` bytes.
#[verifier::external_body]
pub(crate) fn str_len(s: &str) -> (r: usize)
    ensures
        r == blen(s@),
        r <= isize::MAX,
{
    s.len()
}

/// UTF-8 encoded length of `c`.
pub fn len_utf8(c: char) -> (r: usize)
    ensures
        r == clen(c),
        1 <= r <= 4,
{
    let u = c as u32;
    if u < 0x80 {
        1
    } else if u < 0x800 {
        2
    } else if u < 0x10000 {
        3
    } else {
        4
    }
}

// ---------------------------------------------------------------------------
// Character classes
pub open spec fn is_digit(c: char) -> bool {
    '0' <= c && c <= '9'
}

pub open spec fn is_hex(c: char) -> bool {
    is_digit(c) || ('a' <= c && c <= 'f') || ('A' <= c && c <= 'F')
}

pub open spec fn is_alpha(c: char) -> bool {
    ('a' <= c && c <= 'z') || ('A' <= c && c <= 'Z')
}

pub open spec fn is_non_ascii(c: char) -> bool {
    (c as u32) >= 0x80
}

pub open spec fn is_ws(c: char) -> bool {
    c == ' ' || c == '\t' || c == '\n' || c == '\x0c' || c == '\r'
}

pub open spec fn is_newline(c: char) -> bool {
    c == '\r' || c == '\x0c' || c == '\n'
}

pub open spec fn is_ident_first(c: char) -> bool {
    c == '_' || is_alpha(c) || is_non_ascii(c)
}

pub open spec fn is_ident_char(c: char) -> bool {
    c == '_' || c == '-' || is_alpha(c) || is_digit(c) || is_non_ascii(c)
}

pub fn exec_is_digit(c: char) -> (r: bool)
    ensures
        r == is_digit(c),
{
    '0' <= c && c <= '9'
}

pub fn exec_is_hex(c: char) -> (r: bool)
    ensures
        r == is_hex(c),
{
    ('0' <= c && c <= '9') || ('a' <= c && c <= 'f') || ('A' <= c && c <= 'F')
}

pub fn exec_is_ws(c: char) -> (r: bool)
    ensures
        r == is_ws(c),
{
    c == ' ' || c == '\t' || c == '\n' || c == '\x0c' || c == '\r'
}

pub fn exec_is_newline(c: char) -> (r: bool)
    ensures
        r == is_newline(c),
{
    c == '\r' || c == '\x0c' || c == '\n'
}

pub fn exec_is_ident_first(c: char) -> (r: bool)
    ensures
        r == is_ident_first(c),
{
    c == '_' || ('a' <= c && c <= 'z') || ('A' <= c && c <= 'Z') || (c as u32) >= 0x80
}

pub fn exec_is_ident_char(c: char) -> (r: bool)
    ensures
        r == is_ident_char(c),
{
    c == '_' || c == '-' || ('a' <= c && c <= 'z') || ('A' <= c && c <= 'Z') || ('0' <= c && c
        <= '9') || (c as u32) >= 0x80
}

/// Value of a hexadecimal digit (either case).
pub open spec fn hex_digit(c: char) -> nat {
    if is_digit(c) {
        (c as u32 - '0' as u32) as nat
    } else if 'a' <= c && c <= 'f' {
        (c as u32 - 'a' as u32 + 10) as nat
    } else {
        (c as u32 - 'A' as u32 + 10) as nat
    }
}

/// Value of a string of hexadecimal digits, most significant first.
pub open spec fn hex_value(s: Seq<char>) -> nat
    decreases s.len(),
{
    if s.len() == 0 {
        0
    } else {
        hex_value(s.drop_last()) * 16 + hex_digit(s.last())
    }
}

pub open spec fn all_hex(s: Seq<char>) -> bool {
    forall|i: int| 0 <= i < s.len() ==> is_hex(#[trigger] s[i])
}

// ---------------------------------------------------------------------------
// `std` string operations without a specification in vstd
/// `String::push`: appends one character.
#[verifier::external_body]
pub(crate) fn string_push(s: &mut String, c: char)
    ensures
        final(s)@ == old(s)@.push(c),
{
    s.push(c);
}

/// The result of `str::to_lowercase` (full Unicode lower-casing, a function of the
/// string alone).
pub uninterp spec fn lowercase(s: Seq<char>) -> Seq<char>;

/// `str::to_lowercase`. Only names the result; its Unicode tables are not restated.
#[verifier::external_body]
pub(crate) fn str_to_lowercase(s: &str) -> (r: String)
    ensures
        r@ == lowercase(s@),
{
    s.to_lowercase()
}

/// `char::from_u32`: `Some` exactly for Unicode scalar values, which it returns unchanged.
#[verifier::external_body]
pub(crate) fn char_from_u32(u: u32) -> (r: Option<char>)
    ensures
        r is Some <==> (u < 0xD800 || (0xE000 <= u && u <= 0x10FFFF)),
        r matches Some(c) ==> c as u32 == u,
{
    char::from_u32(u)
}

/// Slicing a `str` by byte offsets that lie on character boundaries
/// (`&s[from..to]`); the slice holds the characters between them.
#[verifier::external_body]
pub(crate) fn str_slice<'a>(s: &'a str, from: usize, to: usize) -> (r: &'a str)
    requires
        cidx(s@, from as int) is Some,
        cidx(s@, to as int) is Some,
        from <= to,
    ensures
        r@ == s@.subrange(cidx(s@, from as int)->0, cidx(s@, to as int)->0),
{
    &s[from..to]
}

/// Collects the characters of a string.
pub fn collect_chars(s: &str) -> (v: Vec<char>)
    ensures
        v@ == s@,
{
    let mut v: Vec<char> = Vec::new();
    for c in it: s.chars()
        invariant
            v@ == it.seq().take(it.index() as int),
    {
        v.push(c);
    }
    v
}

/// Builds a string from characters.
pub fn string_from_chars(v: &[char]) -> (s: String)
    ensures
        s@ == v@,
{
    let mut s = String::new();
    let mut i: usize = 0;
    while i < v.len()
        invariant
            i <= v.len(),
            s@ == v@.take(i as int),
        decreases v.len() - i,
    {
        string_push(&mut s, v[i]);
        assert(v@.take(i as int).push(v@[i as int]) =~= v@.take(i + 1));
        i += 1;
    }
    assert(v@.take(v.len() as int) =~= v@);
    s
}

/// Whether the characters of `v` are those of `lit`.
pub fn eq_chars(v: &Vec<char>, lit: &[char]) -> (r: bool)
    ensures
        r == (v@ =~= lit@),
{
    if v.len() != lit.len() {
        return false;
    }
    let mut i: usize = 0;
    while i < v.len()
        invariant
            v.len() == lit.len(),
            i <= v.len(),
            forall|k: int| 0 <= k < i ==> v@[k] == lit@[k],
        decreases v.len() - i,
    {
        if v[i] != lit[i] {
            return false;
        }
        i = i + 1;
    }
    assert(v@ =~= lit@);
    true
}

/// Whether `s` ends with `suffix`.
pub open spec fn has_suffix(s: Seq<char>, suffix: Seq<char>) -> bool {
    suffix.len() <= s.len() && s.subrange(s.len() - suffix.len(), s.len() as int) =~= suffix
}

/// Whether `s` starts with `prefix`.
pub open spec fn has_prefix(s: Seq<char>, prefix: Seq<char>) -> bool {
    prefix.len() <= s.len() && s.subrange(0, prefix.len() as int) =~= prefix
}

/// Whether the characters of `v` end with those of `suffix`.
pub fn has_suffix_chars(v: &Vec<char>, suffix: &[char]) -> (r: bool)
    ensures
        r == has_suffix(v@, suffix@),
{
    if suffix.len() > v.len() {
        return false;
    }
    let d = v.len() - suffix.len();
    let mut i: usize = 0;
    while i < suffix.len()
        invariant
            d + suffix.len() == v.len(),
            i <= suffix.len(),
            forall|k: int| 0 <= k < i ==> v@[d + k] == suffix@[k],
        decreases suffix.len() - i,
    {
        if v[d + i] != suffix[i] {
            assert(v@.subrange(d as int, v@.len() as int)[i as int] != suffix@[i as int]);
            return false;
        }
        i = i + 1;
    }
    assert(v@.subrange(d as int, v@.len() as int) =~= suffix@);
    true
}

/// Whether the characters of `v` start with those of `prefix`.
pub fn has_prefix_chars(v: &Vec<char>, prefix: &[char]) -> (r: bool)
    ensures
        r == has_prefix(v@, prefix@),
{
    if prefix.len() > v.len() {
        return false;
    }
    let mut i: usize = 0;
    while i < prefix.len()
        invariant
            prefix.len() <= v.len(),
            i <= prefix.len(),
            forall|k: int| 0 <= k < i ==> v@[k] == prefix@[k],
        decreases prefix.len() - i,
    {
        if v[i] != prefix[i] {
            assert(v@.subrange(0, prefix@.len() as int)[i as int] != prefix@[i as int]);
            return false;
        }
        i = i + 1;
    }
    assert(v@.subrange(0, prefix@.len() as int) =~= prefix@);
    true
}

} // verus!
