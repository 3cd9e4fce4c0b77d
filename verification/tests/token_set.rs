use csslancer::syntax_kind::SyntaxKind::{DIM_CQMAX, EOF, MINUS, PLUS};
use csslancer::token_set::TokenSet;

#[test]
fn token_set_works_for_tokens() {
    // DIM_CQMAX is the last SyntaxKind which is a token and repr(DIM_CQMAX) must be < 128 so it can fit in the u128 based TokenSet
    let ts = TokenSet::new(&[EOF, MINUS, DIM_CQMAX]);
    assert!(ts.contains(EOF));
    assert!(ts.contains(MINUS));
    assert!(ts.contains(DIM_CQMAX));
    assert!(!ts.contains(PLUS));
}

#[test]
fn token_set_union_holds_both() {
    let a = TokenSet::new(&[EOF]);
    let b = TokenSet::new(&[PLUS]);
    let u = a.union(b);
    assert!(u.contains(EOF));
    assert!(u.contains(PLUS));
    assert!(!u.contains(MINUS));
}

#[test]
fn token_set_empty_list_is_empty() {
    let e = TokenSet::new(&[]);
    assert!(!e.contains(EOF));
    assert!(!e.contains(DIM_CQMAX));
}

#[test]
fn token_kinds_fit_the_set() {
    assert_eq!(DIM_CQMAX.to_u16(), 95);
    assert_eq!(EOF.to_u16(), 1);
    assert!(DIM_CQMAX.is_dimension());
    assert!(PLUS.is_punct());
    assert!(!PLUS.is_dimension());
}
