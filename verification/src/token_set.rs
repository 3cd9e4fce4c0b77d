//! A bit-set of token kinds.
use crate::syntax_kind::SyntaxKind;
use vstd::prelude::*;

verus! {

/// Whether bit `i` of `x` is set.
pub open spec fn bit_set(x: u128, i: nat) -> bool {
    i < 128 && (x >> (i as u128)) & 1u128 == 1u128
}

/// A set of token kinds; bit `i` stands for the kind whose index is `i`.
#[derive(Clone, Copy)]
pub struct TokenSet(u128);

impl View for TokenSet {
    type V = Set<nat>;

    /// The indices of the kinds in the set.
    closed spec fn view(&self) -> Set<nat> {
        Set::new(|i: nat| bit_set(self.0, i))
    }
}

proof fn lemma_or_bit(x: u128, y: u128, i: u128)
    requires
        i < 128,
    ensures
        ((x | y) >> i) & 1u128 == 1u128 <==> ((x >> i) & 1u128 == 1u128 || (y >> i) & 1u128
            == 1u128),
{
    assert(((x | y) >> i) & 1u128 == 1u128 <==> ((x >> i) & 1u128 == 1u128 || (y >> i) & 1u128
        == 1u128)) by (bit_vector)
        requires
            i < 128,
    ;
}

proof fn lemma_single_bit(i: u128, j: u128)
    requires
        i < 128,
        j < 128,
    ensures
        ((1u128 << j) >> i) & 1u128 == 1u128 <==> i == j,
{
    assert(((1u128 << j) >> i) & 1u128 == 1u128 <==> i == j) by (bit_vector)
        requires
            i < 128,
            j < 128,
    ;
}

proof fn lemma_and_bit(x: u128, j: u128)
    requires
        j < 128,
    ensures
        x & (1u128 << j) != 0 <==> (x >> j) & 1u128 == 1u128,
{
    assert(x & (1u128 << j) != 0 <==> (x >> j) & 1u128 == 1u128) by (bit_vector)
        requires
            j < 128,
    ;
}

proof fn lemma_zero_bit(i: u128)
    ensures
        (0u128 >> i) & 1u128 != 1u128,
{
    assert((0u128 >> i) & 1u128 != 1u128) by (bit_vector);
}

/// The one-bit mask of `kind`.
pub fn mask(kind: SyntaxKind) -> (r: u128)
    requires
        kind.index() < 128,
    ensures
        r == 1u128 << kind.index(),
        forall|i: nat| bit_set(r, i) <==> i == kind.index(),
{
    let k: u32 = kind.to_u16() as u32;
    let r = 1u128 << k;
    assert forall|i: nat| bit_set(r, i) <==> i == kind.index() by {
        if i < 128 {
            lemma_single_bit(i as u128, k as u128);
        }
    }
    r
}

impl TokenSet {
    /// The set that holds `kinds` and nothing else.
    pub fn new(kinds: &[SyntaxKind]) -> (r: TokenSet)
        requires
            forall|j: int| 0 <= j < kinds@.len() ==> #[trigger] kinds@[j].index() < 128,
        ensures
            r@ == Set::new(|i: nat| exists|j: int| 0 <= j < kinds@.len() && #[trigger] kinds@[j].index() == i),
    {
        let mut res: u128 = 0;
        let mut i: usize = 0;
        assert forall|t: nat| !bit_set(0u128, t) by {
            if t < 128 {
                lemma_zero_bit(t as u128);
            }
        }
        while i < kinds.len()
            invariant
                i <= kinds@.len(),
                forall|j: int| 0 <= j < kinds@.len() ==> #[trigger] kinds@[j].index() < 128,
                forall|t: nat|
                    bit_set(res, t) <==> exists|j: int| 0 <= j < i && #[trigger] kinds@[j].index() == t,
            decreases kinds@.len() - i,
        {
            let m = mask(kinds[i]);
            let old_res = res;
            res = res | m;
            assert forall|t: nat|
                bit_set(res, t) <==> exists|j: int| 0 <= j < i + 1 && #[trigger] kinds@[j].index() == t by {
                if t < 128 {
                    lemma_or_bit(old_res, m, t as u128);
                    assert(bit_set(res, t) == (bit_set(old_res, t) || bit_set(m, t)));
                    if bit_set(res, t) {
                        if bit_set(old_res, t) {
                            let j = choose|j: int| 0 <= j < i && #[trigger] kinds@[j].index() == t;
                            assert(0 <= j < i + 1 && kinds@[j].index() == t);
                        } else {
                            assert(kinds@[i as int].index() == t);
                        }
                    }
                    if exists|j: int| 0 <= j < i + 1 && #[trigger] kinds@[j].index() == t {
                        let j = choose|j: int| 0 <= j < i + 1 && #[trigger] kinds@[j].index() == t;
                        if j < i {
                            assert(bit_set(old_res, t));
                        } else {
                            assert(bit_set(m, t));
                        }
                    }
                } else {
                    if exists|j: int| 0 <= j < i + 1 && #[trigger] kinds@[j].index() == t {
                        let j = choose|j: int| 0 <= j < i + 1 && #[trigger] kinds@[j].index() == t;
                        assert(kinds@[j].index() < 128);
                    }
                }
            }
            i += 1;
        }
        let r = TokenSet(res);
        assert(r@ =~= Set::new(|t: nat| exists|j: int| 0 <= j < kinds@.len() && #[trigger] kinds@[j].index() == t));
        r
    }

    /// The kinds that are in either set.
    pub fn union(self, other: TokenSet) -> (r: TokenSet)
        ensures
            r@ == self@.union(other@),
    {
        let r = TokenSet(self.0 | other.0);
        assert forall|t: nat| r@.contains(t) <==> self@.union(other@).contains(t) by {
            if t < 128 {
                lemma_or_bit(self.0, other.0, t as u128);
            }
        }
        assert(r@ =~= self@.union(other@));
        r
    }

    /// Whether `kind` is in the set.
    pub fn contains(&self, kind: SyntaxKind) -> (r: bool)
        requires
            kind.index() < 128,
        ensures
            r == self@.contains(kind.index()),
    {
        let m = mask(kind);
        proof {
            lemma_and_bit(self.0, kind.index() as u128);
        }
        self.0 & m != 0
    }
}

} // verus!
