//! Text helpers for writing out the syntax kind declarations.
use crate::text::string_push;
use vstd::prelude::*;

verus! {

pub open spec fn is_ascii_upper(c: char) -> bool {
    'A' <= c && c <= 'Z'
}

pub open spec fn ascii_upper(c: char) -> char {
    if 'a' <= c && c <= 'z' {
        ((c as u32) - 32) as char
    } else {
        c
    }
}

/// `s` in upper snake case: ASCII letters upper-cased, with an underscore before
/// each upper-case letter but the first character.
pub open spec fn upper_snake_case(s: Seq<char>) -> Seq<char>
    decreases s.len(),
{
    if s.len() == 0 {
        Seq::empty()
    } else {
        let c = s.last();
        let sep = if s.len() > 1 && is_ascii_upper(c) {
            seq!['_']
        } else {
            Seq::empty()
        };
        upper_snake_case(s.drop_last()) + sep + seq![ascii_upper(c)]
    }
}

fn to_ascii_uppercase(c: char) -> (r: char)
    ensures
        r == ascii_upper(c),
{
    if 'a' <= c && c <= 'z' {
        let u = (c as u32) - 32;
        proof {
            assert(u < 0xD800);
        }
        let r = char_from_ascii(u);
        r
    } else {
        c
    }
}

fn char_from_ascii(u: u32) -> (r: char)
    requires
        u < 0x80,
    ensures
        r as u32 == u,
{
    match crate::text::char_from_u32(u) {
        Some(c) => c,
        None => ' ',
    }
}

/// Upper snake case of a name: `fontFace` becomes `FONT_FACE`.
pub fn to_upper_snake_case(s: &str) -> (r: String)
    ensures
        r@ == upper_snake_case(s@),
{
    let v = crate::text::collect_chars(s);
    let mut buf = String::new();
    let mut prev = false;
    let mut i: usize = 0;
    while i < v.len()
        invariant
            i <= v@.len(),
            v@ == s@,
            prev == (i > 0),
            buf@ == upper_snake_case(v@.take(i as int)),
        decreases v@.len() - i,
    {
        let c = v[i];
        proof {
            assert(v@.take(i + 1).drop_last() =~= v@.take(i as int));
        }
        let ghost before = buf@;
        if ('A' <= c && c <= 'Z') && prev {
            string_push(&mut buf, '_');
        }
        prev = true;
        string_push(&mut buf, to_ascii_uppercase(c));
        proof {
            let sep = if i + 1 > 1 && is_ascii_upper(c) {
                seq!['_']
            } else {
                Seq::empty()
            };
            assert(buf@ =~= before + sep + seq![ascii_upper(c)]);
        }
        i += 1;
    }
    proof {
        assert(v@.take(v@.len() as int) =~= v@);
    }
    buf
}

/// `s` with each `\r\n` made a `\n`.
pub open spec fn normalized_newlines(s: Seq<char>) -> Seq<char>
    decreases s.len(),
{
    if s.len() == 0 {
        Seq::empty()
    } else if s.len() >= 2 && s[0] == '\r' && s[1] == '\n' {
        seq!['\n'] + normalized_newlines(s.subrange(2, s.len() as int))
    } else {
        seq![s[0]] + normalized_newlines(s.subrange(1, s.len() as int))
    }
}

/// Makes every `\r\n` line ending a `\n`.
pub fn normalize_newlines(s: &str) -> (r: String)
    ensures
        r@ == normalized_newlines(s@),
{
    let v = crate::text::collect_chars(s);
    let mut out = String::new();
    let mut i: usize = 0;
    proof {
        assert(v@.subrange(0, v@.len() as int) =~= v@);
        assert(out@ + normalized_newlines(v@) =~= normalized_newlines(v@));
    }
    while i < v.len()
        invariant
            i <= v@.len(),
            v@ == s@,
            out@ + normalized_newlines(v@.subrange(i as int, v@.len() as int)) == normalized_newlines(v@),
        decreases v@.len() - i,
    {
        let ghost rest = v@.subrange(i as int, v@.len() as int);
        if v[i] == '\r' && i + 1 < v.len() && v[i + 1] == '\n' {
            proof {
                assert(rest.subrange(2, rest.len() as int) =~= v@.subrange(i + 2, v@.len() as int));
            }
            string_push(&mut out, '\n');
            i += 2;
        } else {
            proof {
                assert(rest.subrange(1, rest.len() as int) =~= v@.subrange(i + 1, v@.len() as int));
            }
            string_push(&mut out, v[i]);
            i += 1;
        }
        proof {
            assert(out@ + normalized_newlines(v@.subrange(i as int, v@.len() as int)) =~= normalized_newlines(v@));
        }
    }
    proof {
        assert(v@.subrange(i as int, v@.len() as int) =~= Seq::<char>::empty());
        assert(out@ + Seq::<char>::empty() =~= out@);
    }
    out
}

} // verus!
