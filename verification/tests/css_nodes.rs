use csslancer::css_node_types::{
    AbstractDeclaration, AbstractDeclarationType, BinaryExpression, BodyDeclaration,
    BodyDeclarationType, CssNodeType, CustomPropertyDeclaration, Declaration, DeclarationType,
    Function, Invocation, InvocationType, Layer, Property, RuleSet, SupportsCondition,
    VariableDeclaration,
};
use csslancer::css_node_types::ReferenceType;
use csslancer::css_node_types::MixinReference;
use csslancer::css_nodes::{_needs_semicolon_after, CssNode, Level, Marker, ParseError};
use csslancer::css_symbol_scope::{Scope, Symbol};
use ego_tree::{NodeId, Tree};

fn ids(n: usize) -> Vec<NodeId> {
    let mut tree = Tree::new(0usize);
    let mut out = vec![tree.root().id()];
    for i in 1..n {
        out.push(tree.orphan(i).id());
    }
    out
}

fn rule_set(id: NodeId) -> CssNodeType {
    CssNodeType::_BodyDeclaration(BodyDeclaration {
        declarations: None,
        body_decl_type: BodyDeclarationType::RuleSet(RuleSet { selectors: id }),
    })
}

fn declaration(id: NodeId, custom: bool) -> CssNodeType {
    let declaration_type = if custom {
        DeclarationType::CustomPropertyDeclaration(CustomPropertyDeclaration { property_set: id })
    } else {
        DeclarationType::Declaration
    };
    CssNodeType::_AbstractDeclaration(AbstractDeclaration {
        colon_position: 3,
        semicolon_position: 9,
        abstract_decl_type: AbstractDeclarationType::Declaration(Declaration {
            property: id,
            expr: id,
            nested_properties: None,
            declaration_type,
        }),
    })
}

fn marker(error: ParseError, offset: usize) -> Marker {
    Marker { error, level: Level::Error, message: "m".to_owned(), offset, length: 1 }
}

#[test]
fn node_kinds_compare_by_variant() {
    let id = ids(1)[0];
    assert!(CssNodeType::ROOT.same_node_type(&CssNodeType::ROOT));
    assert!(!CssNodeType::ROOT.same_node_type(&CssNodeType::Nodelist));
    assert!(CssNodeType::Property(Property { identifier: id })
        .same_node_type(&CssNodeType::Property(Property { identifier: id })));
    assert!(CssNodeType::SupportsCondition(SupportsCondition { lef_parent: 1, rig_parent: 2 })
        .same_node_type(&CssNodeType::SupportsCondition(SupportsCondition {
            lef_parent: 7,
            rig_parent: 8
        })));
    assert!(!CssNodeType::Term(csslancer::css_node_types::Term { operator: None, expression: id })
        .same_node_type(&CssNodeType::Expression));
}

#[test]
fn body_declarations_compare_by_body_kind() {
    let id = ids(1)[0];
    let layer = CssNodeType::_BodyDeclaration(BodyDeclaration {
        declarations: Some(id),
        body_decl_type: BodyDeclarationType::Layer(Layer { names: id }),
    });
    let media = CssNodeType::_BodyDeclaration(BodyDeclaration {
        declarations: None,
        body_decl_type: BodyDeclarationType::Media,
    });
    assert!(rule_set(id).same_node_type(&rule_set(id)));
    assert!(!rule_set(id).same_node_type(&layer));
    assert!(!layer.same_node_type(&media));
    assert!(media.same_node_type(&CssNodeType::_BodyDeclaration(BodyDeclaration {
        declarations: Some(id),
        body_decl_type: BodyDeclarationType::Media,
    })));
}

#[test]
fn declarations_compare_by_custom_property() {
    let id = ids(1)[0];
    assert!(declaration(id, false).same_node_type(&declaration(id, false)));
    assert!(declaration(id, true).same_node_type(&declaration(id, true)));
    assert!(!declaration(id, false).same_node_type(&declaration(id, true)));
    let variable = CssNodeType::_AbstractDeclaration(AbstractDeclaration {
        colon_position: 0,
        semicolon_position: 0,
        abstract_decl_type: AbstractDeclarationType::VariableDeclaration(VariableDeclaration {
            variable: id,
            value: id,
            needs_semicolon: true,
        }),
    });
    assert!(variable.same_node_type(&declaration(id, false)));
    let function = CssNodeType::_Invocation(Invocation {
        arguments: id,
        invocation_type: InvocationType::Function(Function { identifier: id }),
    });
    let invocation =
        CssNodeType::_Invocation(Invocation { arguments: id, invocation_type: InvocationType::Invocation });
    assert!(!function.same_node_type(&invocation));
    assert!(function.same_node_type(&CssNodeType::_Invocation(Invocation {
        arguments: id,
        invocation_type: InvocationType::Function(Function { identifier: id }),
    })));
}

#[test]
fn unchecked_accessors_reach_into_the_node_type() {
    let v = ids(3);
    let mut t = rule_set(v[0]);
    t.unchecked_rule_set().selectors = v[1];
    assert_eq!(t.unchecked_rule_set_ref().selectors, v[1]);
    t.unchecked_body_decl().declarations = Some(v[2]);
    assert_eq!(t, CssNodeType::_BodyDeclaration(BodyDeclaration {
        declarations: Some(v[2]),
        body_decl_type: BodyDeclarationType::RuleSet(RuleSet { selectors: v[1] }),
    }));

    let mut d = declaration(v[0], true);
    d.unchecked_abst_decl_decl_custom_prop_decl_inner().property_set = v[2];
    d.unchecked_abst_decl_decl_decl_inner().expr = v[1];
    d.unchecked_abst_decl_inner().colon_position = 4;
    let inner = d.unchecked_abst_decl_decl_decl_inner_ref();
    assert_eq!(inner.expr, v[1]);
    assert_eq!(inner.property, v[0]);
    assert_eq!(
        inner.declaration_type,
        DeclarationType::CustomPropertyDeclaration(CustomPropertyDeclaration { property_set: v[2] })
    );

    let mut b = CssNodeType::BinaryExpression(BinaryExpression { left: v[0], right: v[0], operator: v[0] });
    b.unchecked_binary_expr().right = v[2];
    assert_eq!(b, CssNodeType::BinaryExpression(BinaryExpression { left: v[0], right: v[2], operator: v[0] }));

    let mut s = CssNodeType::SupportsCondition(SupportsCondition { lef_parent: 1, rig_parent: 2 });
    s.unchecked_supports_condition().rig_parent = 10;
    assert_eq!(s, CssNodeType::SupportsCondition(SupportsCondition { lef_parent: 1, rig_parent: 10 }));
}

#[test]
fn node_ranges() {
    let a = CssNode::new(4, 6, CssNodeType::Value);
    let b = CssNode::new(5, 2, CssNodeType::Value);
    assert_eq!(a.end(), 10);
    assert!(a.encloses(&b));
    assert!(!b.encloses(&a));
    assert!(a.encloses(&a));

    let mut c = CssNode::new(8, 1, CssNodeType::Expression);
    c.update_offset_and_length(&a);
    assert_eq!((c.offset, c.length), (4, 6));

    let mut placed_later = CssNode::new(usize::MAX, 0, CssNodeType::ROOT);
    placed_later.update_offset_and_length(&b);
    assert_eq!((placed_later.offset, placed_later.length), (5, 2));

    // Moving the start back keeps the length when the other node ends earlier.
    let mut d = CssNode::new(10, 5, CssNodeType::Value);
    d.update_offset_and_length(&CssNode::new(0, 3, CssNodeType::Value));
    assert_eq!((d.offset, d.length), (0, 5));
}

#[test]
fn node_issues() {
    let mut n = CssNode::new(0, 3, CssNodeType::Declarations);
    assert!(!n.is_erroneous());
    assert!(!n.has_issue(ParseError::ColonExpected));
    n.add_issue(marker(ParseError::ColonExpected, 1));
    n.add_issue(marker(ParseError::TermExpected, 2));
    assert!(n.is_erroneous());
    assert!(n.has_issue(ParseError::TermExpected));
    assert!(!n.has_issue(ParseError::DotExpected));
    let mut all = vec![marker(ParseError::DotExpected, 0)];
    n.collect_issues(&mut all);
    assert_eq!(
        all,
        vec![
            marker(ParseError::DotExpected, 0),
            marker(ParseError::ColonExpected, 1),
            marker(ParseError::TermExpected, 2)
        ]
    );
}

#[test]
fn scopes_find_the_first_matching_symbol() {
    let mut scope = Scope::new(0, 40);
    assert!(scope.get_symbol("x", ReferenceType::Variable).is_none());
    scope.add_symbol(Symbol::new("x".to_owned(), None, ReferenceType::Rule, CssNode::new(1, 1, CssNodeType::Value)));
    scope.add_symbol(Symbol::new(
        "x".to_owned(),
        Some("1".to_owned()),
        ReferenceType::Variable,
        CssNode::new(2, 1, CssNodeType::Value),
    ));
    scope.add_symbol(Symbol::new(
        "x".to_owned(),
        Some("2".to_owned()),
        ReferenceType::Variable,
        CssNode::new(3, 1, CssNodeType::Value),
    ));
    let found = scope.get_symbol("x", ReferenceType::Variable).unwrap();
    assert_eq!(found.value.as_deref(), Some("1"));
    assert_eq!(found.node.offset, 2);
    assert!(scope.get_symbol("y", ReferenceType::Variable).is_none());
    assert!(scope.get_symbol("x", ReferenceType::Mixin).is_none());
    assert_eq!(scope.get_symbols().len(), 3);
    assert_eq!(scope.get_symbols()[0].ref_type, ReferenceType::Rule);
}

#[test]
fn statements_that_end_with_a_semicolon() {
    let v = ids(2);
    let node = |t: CssNodeType| CssNode::new(0, 1, t);
    assert!(_needs_semicolon_after(&node(CssNodeType::Import)));
    assert!(_needs_semicolon_after(&node(CssNodeType::MediaQuery)));
    assert!(!_needs_semicolon_after(&node(CssNodeType::Namespace)));
    assert!(!_needs_semicolon_after(&node(rule_set(v[0]))));
    assert!(_needs_semicolon_after(&node(declaration(v[0], true))));
    assert!(_needs_semicolon_after(&node(declaration(v[0], false))));
    let mut nested = declaration(v[0], false);
    nested.unchecked_abst_decl_decl_decl_inner().nested_properties = Some(v[1]);
    assert!(!_needs_semicolon_after(&node(nested)));
    let variable = |needs_semicolon| {
        CssNodeType::VariableDeclaration(VariableDeclaration { variable: v[0], value: v[1], needs_semicolon })
    };
    assert!(_needs_semicolon_after(&node(variable(true))));
    assert!(!_needs_semicolon_after(&node(variable(false))));
    let mixin = |content| {
        CssNodeType::MixinReference(MixinReference { namespaces: v[0], identifier: v[0], arguments: v[1], content })
    };
    assert!(_needs_semicolon_after(&node(mixin(None))));
    assert!(!_needs_semicolon_after(&node(mixin(Some(v[1])))));
    assert!(!_needs_semicolon_after(&node(CssNodeType::NumericValue)));
}
