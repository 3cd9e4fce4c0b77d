//! Tests that decide whether an edited piece of text can be parsed again on its own.
use crate::lex_to_syn::LexedStr;
use crate::syntax_kind::SyntaxKind;
use vstd::prelude::*;

verus! {

/// The nesting depth of curly braces after the kinds `ks`; `None` once a closing
/// brace has no opening one.
pub open spec fn brace_depth(ks: Seq<SyntaxKind>) -> Option<nat>
    decreases ks.len(),
{
    if ks.len() == 0 {
        Some(0)
    } else {
        match brace_depth(ks.drop_last()) {
            None => None,
            Some(d) => if ks.last() == SyntaxKind::L_CURLY {
                Some(d + 1)
            } else if ks.last() == SyntaxKind::R_CURLY {
                if d == 0 {
                    None
                } else {
                    Some((d - 1) as nat)
                }
            } else {
                Some(d)
            },
        }
    }
}

proof fn lemma_brace_depth_bound(ks: Seq<SyntaxKind>)
    ensures
        brace_depth(ks) matches Some(d) ==> d <= ks.len(),
    decreases ks.len(),
{
    if ks.len() > 0 {
        lemma_brace_depth_bound(ks.drop_last());
    }
}

/// Whether the tokens are a block: they open with `{`, close with `}`, and the
/// braces between are balanced.
pub open spec fn braced_and_balanced(ks: Seq<SyntaxKind>) -> bool {
    &&& ks.len() >= 2
    &&& ks[0] == SyntaxKind::L_CURLY
    &&& ks.last() == SyntaxKind::R_CURLY
    &&& brace_depth(ks.subrange(1, ks.len() - 1)) == Some(0nat)
}

pub fn is_braced_n_balanced(lexed: &LexedStr<'_>) -> (r: bool)
    requires
        lexed.wf(),
    ensures
        r == braced_and_balanced(lexed.kinds().take(lexed.token_count() as int)),
{
    let ghost ks = lexed.kinds().take(lexed.token_count() as int);
    if lexed.is_empty() || lexed.kind(0) != SyntaxKind::L_CURLY || lexed.kind(lexed.len() - 1)
        != SyntaxKind::R_CURLY {
        return false;
    }
    let n = lexed.len();
    let mut balance: usize = 0;
    let mut i: usize = 1;
    while i < n - 1
        invariant
            lexed.wf(),
            n == lexed.token_count(),
            ks == lexed.kinds().take(n as int),
            n >= 1,
            1 <= i <= n - 1 || (n == 1 && i == 1),
            brace_depth(ks.subrange(1, i as int)) == Some(balance as nat),
        decreases n - i,
    {
        proof {
            assert(ks.subrange(1, i + 1).drop_last() =~= ks.subrange(1, i as int));
            lemma_brace_depth_bound(ks.subrange(1, i as int));
        }
        let k = lexed.kind(i);
        if k == SyntaxKind::L_CURLY {
            balance += 1;
        } else if k == SyntaxKind::R_CURLY {
            balance = match balance.checked_sub(1) {
                Some(b) => b,
                None => {
                    proof {
                        assert(ks.subrange(1, i + 1) =~= ks.subrange(1, n - 1).take(i as int));
                        lemma_none_stays(ks.subrange(1, i + 1), ks.subrange(1, n - 1));
                    }
                    return false;
                },
            };
        }
        i += 1;
    }
    proof {
        if n == 1 {
            assert(ks[0] == SyntaxKind::L_CURLY);
        } else {
            assert(ks.subrange(1, i as int) =~= ks.subrange(1, ks.len() - 1));
        }
    }
    balance == 0
}

/// Once braces are unbalanced, more tokens do not mend it.
proof fn lemma_none_stays(a: Seq<SyntaxKind>, b: Seq<SyntaxKind>)
    requires
        a.len() <= b.len(),
        a == b.take(a.len() as int),
        brace_depth(a) is None,
    ensures
        brace_depth(b) is None,
    decreases b.len(),
{
    if b.len() > a.len() {
        assert(b.drop_last().take(a.len() as int) =~= a);
        lemma_none_stays(a, b.drop_last());
    } else {
        assert(a =~= b);
    }
}

/// Identifiers that some grammars treat as keywords.
pub fn is_contextual_kw(text: &str) -> (r: bool)
    ensures
        r == (text@ =~= seq!['a', 'u', 't', 'o'] || text@ =~= seq!['d', 'e', 'f', 'a', 'u', 'l', 't']
            || text@ =~= seq!['u', 'n', 'i', 'o', 'n']),
{
    let v = crate::text::collect_chars(text);
    crate::text::eq_chars(&v, &['a', 'u', 't', 'o']) || crate::text::eq_chars(
        &v,
        &['d', 'e', 'f', 'a', 'u', 'l', 't'],
    ) || crate::text::eq_chars(&v, &['u', 'n', 'i', 'o', 'n'])
}

} // verus!
