//! The parser's input: the kinds of the non-trivia tokens, with a whitespace flag
//! after each of them.
use crate::syntax_kind::SyntaxKind;
use vstd::prelude::*;

verus! {

/// Whether bit `b` of the word `w` is set.
pub open spec fn word_bit(w: u64, b: nat) -> bool {
    b < 64 && (w >> (b as u64)) & 1u64 == 1u64
}

/// Input for the parser: a sequence of tokens, without whitespace and comments.
///
/// Whether whitespace followed a token is kept as one bit per token, 64 tokens to
/// a word of `joint`.
pub struct Input {
    kind: Vec<SyntaxKind>,
    joint: Vec<u64>,
    contextual_kind: Vec<SyntaxKind>,
}

proof fn lemma_set_bit(x: u64, b: u64, i: u64)
    requires
        b < 64,
        i < 64,
    ensures
        ((x | (1u64 << b)) >> i) & 1u64 == 1u64 <==> ((x >> i) & 1u64 == 1u64 || i == b),
{
    assert(((x | (1u64 << b)) >> i) & 1u64 == 1u64 <==> ((x >> i) & 1u64 == 1u64 || i == b))
        by (bit_vector)
        requires
            b < 64,
            i < 64,
    ;
}

proof fn lemma_test_bit(x: u64, b: u64)
    requires
        b < 64,
    ensures
        (x & (1u64 << b)) != 0 <==> (x >> b) & 1u64 == 1u64,
{
    assert((x & (1u64 << b)) != 0 <==> (x >> b) & 1u64 == 1u64) by (bit_vector)
        requires
            b < 64,
    ;
}

proof fn lemma_zero_word(i: u64)
    ensures
        (0u64 >> i) & 1u64 != 1u64,
{
    assert((0u64 >> i) & 1u64 != 1u64) by (bit_vector);
}

impl Input {
    /// The kinds of the tokens pushed so far.
    pub closed spec fn kinds(self) -> Seq<SyntaxKind> {
        self.kind@
    }

    /// The contextual kinds of the tokens pushed so far.
    pub closed spec fn contextual_kinds(self) -> Seq<SyntaxKind> {
        self.contextual_kind@
    }

    /// The stored whitespace bit of position `n`.
    closed spec fn bit(self, n: nat) -> bool {
        let w = n / 64;
        w < self.joint@.len() && word_bit(self.joint@[w as int], n % 64)
    }

    /// For each token, whether whitespace followed it.
    pub closed spec fn whitespace_after(self) -> Seq<bool> {
        Seq::new(self.kind@.len(), |n: int| self.bit(n as nat))
    }

    /// Number of words the whitespace bits take.
    pub closed spec fn words(self) -> nat {
        self.joint@.len()
    }

    /// The three sequences agree in length, the bits take just enough words, and
    /// no bit past the last token is set.
    pub closed spec fn wf(self) -> bool {
        &&& self.kind@.len() == self.contextual_kind@.len()
        &&& self.joint@.len() == (self.kind@.len() + 63) / 64
        &&& forall|n: nat| self.kind@.len() <= n ==> !#[trigger] self.bit(n)
    }

    /// A well-formed input keeps one whitespace flag and one contextual kind per
    /// token, and just enough words for the flags.
    pub proof fn lemma_words(self)
        requires
            self.wf(),
        ensures
            self.words() == (self.kinds().len() + 63) / 64,
            self.whitespace_after().len() == self.kinds().len(),
            self.contextual_kinds().len() == self.kinds().len(),
    {
    }

    /// Pushes a token of `kind` whose contextual kind is `EOF`.
    pub fn push(&mut self, kind: SyntaxKind)
        requires
            old(self).wf(),
        ensures
            final(self).wf(),
            final(self).kinds() == old(self).kinds().push(kind),
            final(self).contextual_kinds() == old(self).contextual_kinds().push(SyntaxKind::EOF),
            final(self).whitespace_after() == old(self).whitespace_after().push(false),
    {
        self.push_impl(kind, SyntaxKind::EOF)
    }

    /// Pushes an identifier with its contextual kind.
    pub fn push_ident(&mut self, contextual_kind: SyntaxKind)
        requires
            old(self).wf(),
        ensures
            final(self).wf(),
            final(self).kinds() == old(self).kinds().push(SyntaxKind::IDENTIFIER),
            final(self).contextual_kinds() == old(self).contextual_kinds().push(contextual_kind),
            final(self).whitespace_after() == old(self).whitespace_after().push(false),
    {
        self.push_impl(SyntaxKind::IDENTIFIER, contextual_kind)
    }

    /// Pushes a function token with its contextual kind.
    pub fn push_func(&mut self, contextual_kind: SyntaxKind)
        requires
            old(self).wf(),
        ensures
            final(self).wf(),
            final(self).kinds() == old(self).kinds().push(SyntaxKind::FUNCTION),
            final(self).contextual_kinds() == old(self).contextual_kinds().push(contextual_kind),
            final(self).whitespace_after() == old(self).whitespace_after().push(false),
    {
        self.push_impl(SyntaxKind::FUNCTION, contextual_kind)
    }

    /// Pushes an id hash with its contextual kind.
    pub fn push_id_hash(&mut self, contextual_kind: SyntaxKind)
        requires
            old(self).wf(),
        ensures
            final(self).wf(),
            final(self).kinds() == old(self).kinds().push(SyntaxKind::ID_HASH),
            final(self).contextual_kinds() == old(self).contextual_kinds().push(contextual_kind),
            final(self).whitespace_after() == old(self).whitespace_after().push(false),
    {
        self.push_impl(SyntaxKind::ID_HASH, contextual_kind)
    }

    /// Pushes an unrestricted hash with its contextual kind.
    pub fn push_unrestriced_hash(&mut self, contextual_kind: SyntaxKind)
        requires
            old(self).wf(),
        ensures
            final(self).wf(),
            final(self).kinds() == old(self).kinds().push(SyntaxKind::UNRESTRICTED_HASH),
            final(self).contextual_kinds() == old(self).contextual_kinds().push(contextual_kind),
            final(self).whitespace_after() == old(self).whitespace_after().push(false),
    {
        self.push_impl(SyntaxKind::UNRESTRICTED_HASH, contextual_kind)
    }

    /// Pushes a dimension with an unknown unit, with its contextual kind.
    pub fn push_unknown_dimension(&mut self, contextual_kind: SyntaxKind)
        requires
            old(self).wf(),
        ensures
            final(self).wf(),
            final(self).kinds() == old(self).kinds().push(SyntaxKind::DIM_UNKNOWN),
            final(self).contextual_kinds() == old(self).contextual_kinds().push(contextual_kind),
            final(self).whitespace_after() == old(self).whitespace_after().push(false),
    {
        self.push_impl(SyntaxKind::DIM_UNKNOWN, contextual_kind)
    }

    /// Records that whitespace followed the last token pushed.
    pub fn had_whitespace(&mut self)
        requires
            old(self).wf(),
            old(self).kinds().len() > 0,
        ensures
            final(self).wf(),
            final(self).kinds() == old(self).kinds(),
            final(self).contextual_kinds() == old(self).contextual_kinds(),
            final(self).whitespace_after() == old(self).whitespace_after().update(
                old(self).kinds().len() - 1,
                true,
            ),
    {
        let n = self.len() - 1;
        let (idx, b_idx) = self.bit_index(n);
        let w = self.joint[idx];
        let b: u64 = b_idx as u64;
        let nw = w | (1u64 << b);
        self.joint.set(idx, nw);
        proof {
            let len = self.kind@.len();
            assert forall|m: nat| #[trigger] self.bit(m) == (old(self).bit(m) || m == n) by {
                if m / 64 == idx {
                    lemma_set_bit(w, b, (m % 64) as u64);
                }
            }
            assert(self.whitespace_after() =~= old(self).whitespace_after().update(len - 1, true));
        }
    }

    fn push_impl(&mut self, kind: SyntaxKind, contextual_kind: SyntaxKind)
        requires
            old(self).wf(),
        ensures
            final(self).wf(),
            final(self).kinds() == old(self).kinds().push(kind),
            final(self).contextual_kinds() == old(self).contextual_kinds().push(contextual_kind),
            final(self).whitespace_after() == old(self).whitespace_after().push(false),
    {
        let idx = self.len();
        if idx % 64 == 0 {
            self.joint.push(0);
            proof {
                assert forall|m: nat| #[trigger] self.bit(m) == old(self).bit(m) by {
                    if m / 64 == idx / 64 {
                        lemma_zero_word((m % 64) as u64);
                        assert(!old(self).bit(m));
                    }
                }
            }
        }
        self.kind.push(kind);
        self.contextual_kind.push(contextual_kind);
        proof {
            assert forall|m: nat| #[trigger] self.bit(m) == old(self).bit(m) by {
                if m / 64 == idx / 64 && idx % 64 == 0 {
                    lemma_zero_word((m % 64) as u64);
                    assert(!old(self).bit(m));
                }
            }
            assert(self.whitespace_after() =~= old(self).whitespace_after().push(false));
        }
    }

    /// The kind of the last token, or `EOF` when there is none.
    pub fn last_kind(&self) -> (r: SyntaxKind)
        ensures
            r == (if self.kinds().len() > 0 {
                self.kinds().last()
            } else {
                SyntaxKind::EOF
            }),
    {
        match self.kind.last() {
            Some(k) => *k,
            None => SyntaxKind::EOF,
        }
    }

    /// The kind of token `idx`, or `EOF` past the end.
    pub fn kind(&self, idx: usize) -> (r: SyntaxKind)
        ensures
            r == (if idx < self.kinds().len() {
                self.kinds()[idx as int]
            } else {
                SyntaxKind::EOF
            }),
    {
        if idx < self.kind.len() {
            self.kind[idx]
        } else {
            SyntaxKind::EOF
        }
    }

    /// The contextual kind of token `idx`, or `EOF` past the end.
    pub fn contextual_kind(&self, idx: usize) -> (r: SyntaxKind)
        requires
            self.wf(),
        ensures
            r == (if idx < self.contextual_kinds().len() {
                self.contextual_kinds()[idx as int]
            } else {
                SyntaxKind::EOF
            }),
    {
        if idx < self.contextual_kind.len() {
            self.contextual_kind[idx]
        } else {
            SyntaxKind::EOF
        }
    }

    /// Whether whitespace followed token `n`; positions past the last token that
    /// still fall in a stored word read `false`.
    pub fn has_whitespace_after(&self, n: usize) -> (r: bool)
        requires
            self.wf(),
            n / 64 < self.words(),
        ensures
            r == (n < self.kinds().len() && self.whitespace_after()[n as int]),
    {
        let (idx, b_idx) = self.bit_index(n);
        let b: u64 = b_idx as u64;
        proof {
            lemma_test_bit(self.joint@[idx as int], b);
            assert(self.bit(n as nat) == word_bit(self.joint@[idx as int], (n % 64) as nat));
            if n < self.kind@.len() {
                assert(self.whitespace_after()[n as int] == self.bit(n as nat));
            }
        }
        (self.joint[idx] & (1u64 << b)) != 0
    }

    /// The word and the bit within it that hold the flag of token `n`.
    fn bit_index(&self, n: usize) -> (r: (usize, usize))
        ensures
            r.0 == n / 64,
            r.1 == n % 64,
    {
        let idx = n / 64;
        let b_idx = n % 64;
        (idx, b_idx)
    }

    /// Number of tokens.
    pub fn len(&self) -> (r: usize)
        ensures
            r == self.kinds().len(),
    {
        self.kind.len()
    }
}

impl Default for Input {
    fn default() -> (r: Input)
        ensures
            r.wf(),
            r.kinds() == Seq::<SyntaxKind>::empty(),
            r.contextual_kinds() == Seq::<SyntaxKind>::empty(),
            r.whitespace_after() == Seq::<bool>::empty(),
    {
        let r = Input { kind: Vec::new(), joint: Vec::new(), contextual_kind: Vec::new() };
        assert(r.whitespace_after() =~= Seq::<bool>::empty());
        r
    }
}

} // verus!
