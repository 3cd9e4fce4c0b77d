use csslancer::css_node_types::{
    AbstractDeclaration, AbstractDeclarationType, CssNodeType, Declaration, DeclarationType, Identifier,
    Property,
};
use csslancer::css_nodes::{
    accept, accept_visitor, find_child_at_offset, first_ancestor_of_a_type, first_ancestor_of_type,
    first_child_before_offset, get_parent_declaration, get_real_parent, is_erroneous_recursive, CssNode,
    CssNodeRef, CssNodeTree, Level, Marker, NodeRefExt, ParseError, ParseErrorCollector,
    SourceLessCssNodeTree,
};
use csslancer::css_node_types::ReferenceType;
use csslancer::css_symbol_scope::{ScopeBuilder, ScopeTree, Scope};
use ego_tree::{NodeId, Tree};
use std::cell::Cell;

fn declaration_type(id: NodeId) -> CssNodeType {
    CssNodeType::_AbstractDeclaration(AbstractDeclaration {
        colon_position: 5,
        semicolon_position: 9,
        abstract_decl_type: AbstractDeclarationType::Declaration(Declaration {
            property: id,
            expr: id,
            nested_properties: None,
            declaration_type: DeclarationType::Declaration,
        }),
    })
}

fn marker(offset: usize) -> Marker {
    Marker { error: ParseError::ColonExpected, level: Level::Error, message: "x".to_owned(), offset, length: 1 }
}

/// stylesheet [0, 30)
///   declaration [0, 20)
///     nodelist [0, 12)
///       property [0, 5)
///       value [6, 12)
///   value [21, 30)
struct Sample {
    tree: Tree<CssNode>,
    decl: NodeId,
    list: NodeId,
    prop: NodeId,
    value: NodeId,
    tail: NodeId,
}

fn sample() -> Sample {
    let mut tree = Tree::new(CssNode::new(0, 30, CssNodeType::Stylesheet));
    let dud = tree.root().id();
    let decl = tree.root_mut().append(CssNode::new(0, 20, declaration_type(dud))).id();
    let tail = tree.root_mut().append(CssNode::new(21, 9, CssNodeType::Value)).id();
    let list = tree.get_mut(decl).unwrap().append(CssNode::new(0, 12, CssNodeType::Nodelist)).id();
    let prop = tree.get_mut(list).unwrap().append(CssNode::new(0, 5, CssNodeType::Property(Property { identifier: dud }))).id();
    let value = tree.get_mut(list).unwrap().append(CssNode::new(6, 6, CssNodeType::Value)).id();
    Sample { tree, decl, list, prop, value, tail }
}

#[test]
fn walking_up_finds_ancestors() {
    let s = sample();
    let at = |id| CssNodeRef { tree: &s.tree, id };
    assert_eq!(get_real_parent(at(s.prop)).map(|n| n.id), Some(s.decl));
    assert_eq!(get_real_parent(at(s.list)).map(|n| n.id), Some(s.decl));
    assert_eq!(get_real_parent(at(s.tree.root().id())).map(|n| n.id), None);
    let root = s.tree.root().id();
    assert_eq!(first_ancestor_of_type(at(s.value), declaration_type(root)).map(|n| n.id), Some(s.decl));
    assert_eq!(first_ancestor_of_type(at(s.value), CssNodeType::Stylesheet).map(|n| n.id), Some(root));
    assert!(first_ancestor_of_type(at(s.value), CssNodeType::Term(csslancer::css_node_types::Term { operator: None, expression: root })).is_none());
    assert_eq!(
        first_ancestor_of_a_type(at(s.value), vec![CssNodeType::Stylesheet, CssNodeType::Nodelist]).map(|n| n.id),
        Some(s.list)
    );
    assert!(first_ancestor_of_a_type(at(s.value), Vec::new()).is_none());
}

#[test]
fn the_declaration_a_node_lies_in() {
    let s = sample();
    let at = |id| CssNodeRef { tree: &s.tree, id };
    let d = get_parent_declaration(at(s.prop)).unwrap();
    assert_eq!((d.offset, d.length), (0, 20));
    assert!(get_parent_declaration(at(s.tail)).is_none());
    // A declaration that does not enclose the node is not its declaration.
    let mut tree = Tree::new(CssNode::new(0, 30, CssNodeType::Stylesheet));
    let dud = tree.root().id();
    let decl = tree.root_mut().append(CssNode::new(0, 3, declaration_type(dud))).id();
    let inner = tree.get_mut(decl).unwrap().append(CssNode::new(2, 9, CssNodeType::Value)).id();
    assert!(get_parent_declaration(CssNodeRef { tree: &tree, id: inner }).is_none());
}

#[test]
fn errors_anywhere_below_a_node() {
    let mut s = sample();
    let root = s.tree.root().id();
    assert!(!is_erroneous_recursive(CssNodeRef { tree: &s.tree, id: root }));
    s.tree.get_mut(s.value).unwrap().value().add_issue(marker(6));
    assert!(is_erroneous_recursive(CssNodeRef { tree: &s.tree, id: root }));
    assert!(is_erroneous_recursive(CssNodeRef { tree: &s.tree, id: s.decl }));
    assert!(!is_erroneous_recursive(CssNodeRef { tree: &s.tree, id: s.tail }));
    assert!(!is_erroneous_recursive(CssNodeRef { tree: &s.tree, id: s.prop }));

    let mut collector = ParseErrorCollector::new();
    accept_visitor(CssNodeRef { tree: &s.tree, id: root }, &mut collector);
    assert_eq!(collector.entries, vec![marker(6)]);

    let visited = Cell::new(0);
    accept(CssNodeRef { tree: &s.tree, id: root }, |n: CssNodeRef| {
        visited.set(visited.get() + 1);
        !matches!(n.value().node_type, CssNodeType::Nodelist)
    });
    assert_eq!(visited.get(), 4);
}

#[test]
fn children_at_an_offset() {
    let mut tree = Tree::new(CssNode::new(0, 40, CssNodeType::Stylesheet));
    let a = tree.root_mut().append(CssNode::new(0, 4, CssNodeType::Value)).id();
    let b = tree.root_mut().append(CssNode::new(5, 4, CssNodeType::Value)).id();
    let c = tree.root_mut().append(CssNode::new(10, 4, CssNodeType::Value)).id();
    let b1 = tree.get_mut(b).unwrap().append(CssNode::new(5, 1, CssNodeType::Operator)).id();
    let _b2 = tree.get_mut(b).unwrap().append(CssNode::new(7, 2, CssNodeType::Operator)).id();
    let root = CssNodeRef { tree: &tree, id: tree.root().id() };

    // The last child is never picked.
    assert_eq!(first_child_before_offset(root, 3).map(|n| n.id), Some(a));
    assert_eq!(first_child_before_offset(root, 7).map(|n| n.id), Some(b));
    assert_eq!(first_child_before_offset(root, 12).map(|n| n.id), Some(b));
    assert!(first_child_before_offset(CssNodeRef { tree: &tree, id: c }, 12).is_none());

    assert_eq!(root.find_first_child_before_offset(12).map(|n| n.id), Some(c));
    assert_eq!(root.find_first_child_before_offset(6).map(|n| n.id), Some(b));
    assert!(CssNodeRef { tree: &tree, id: a }.find_first_child_before_offset(1).is_none());

    assert!(find_child_at_offset(root, 6, false).is_none());
    assert_eq!(find_child_at_offset(root, 6, true).map(|n| n.id), Some(b1));
    assert!(find_child_at_offset(root, 14, true).is_none());

    assert_eq!(root.find_child_at_offset(6, false).map(|n| n.id), Some(b));
    assert_eq!(root.find_child_at_offset(6, true).map(|n| n.id), Some(b1));
    assert_eq!(root.find_child_at_offset(12, true).map(|n| n.id), Some(c));
    assert!(root.find_child_at_offset(15, true).is_none());
}

#[test]
fn trees_with_their_text() {
    let mut t = SourceLessCssNodeTree::new(CssNode::new(0, 11, CssNodeType::Stylesheet));
    let root = t.0.root().id();
    let color = t.0.root_mut().append(CssNode::new(0, 5, CssNodeType::Identifier(Identifier { reference_types: None, is_custom_property: false }))).id();
    let custom = t.0.root_mut().append(CssNode::new(6, 5, CssNodeType::Identifier(Identifier { reference_types: None, is_custom_property: true }))).id();
    let lone = t.0.orphan(CssNode::new(0, 1, CssNodeType::Value)).id();
    assert!(t.is_attached(color));
    assert!(t.is_attached(root));
    assert!(!t.is_attached(lone));
    assert_eq!(t.get(color).map(|n| n.id), Some(color));
    assert_eq!(t.get_text(custom, "color --gap"), "--gap");

    assert!(!Identifier { reference_types: None, is_custom_property: false }
        .contains_interpolation(CssNodeRef { tree: &t.0, id: color }));
    assert!(Identifier { reference_types: None, is_custom_property: false }
        .contains_interpolation(CssNodeRef { tree: &t.0, id: root }));

    let tree = CssNodeTree::new(t, "color --gap".to_owned());
    assert_eq!(tree.get_text(color), "color");
    assert!(tree.matches(custom, "--gap"));
    assert!(!tree.matches(custom, "--ga"));
    assert!(tree.starts_with(custom, "--"));
    assert!(tree.ends_with(color, "lor"));
    assert!(!tree.ends_with(color, "--"));
    assert!(Property { identifier: custom }.is_custom_property(&tree));
    assert!(!Property { identifier: color }.is_custom_property(&tree));

    let empty = CssNodeTree::default();
    assert_eq!(empty.1, "");
    assert!(empty.get(empty.0 .0.root().id()).is_some());
    let unplaced = SourceLessCssNodeTree::default();
    assert_eq!(unplaced.0.root().value().offset, usize::MAX);
}

#[test]
fn scopes_nest_by_range() {
    let root = Tree::new(0u8).root().id();
    let mut scopes = ScopeTree::new();
    assert!(scopes.add_child(root, Scope::new(10, 20)));
    assert_eq!(scopes.find_scope_id(root, 12, 3).map(|id| id == root), Some(false));
    assert_eq!(scopes.find_scope(root, 12, 3).map(|s| (s.offset, s.length)), Some((10, 20)));
    assert_eq!(scopes.find_scope(root, 2, 3).map(|s| (s.offset, s.length)), Some((0, usize::MAX)));
    assert_eq!(scopes.find_scope(root, 25, 10).map(|s| s.offset), Some(0));

    let mut b = ScopeBuilder::new(root);
    b.add_scope(CssNode::new(10, 20, CssNodeType::Declarations));
    b.add_scope(CssNode::new(12, 5, CssNodeType::Declarations));
    b.add_symbol("x".to_owned(), None, ReferenceType::Variable, CssNode::new(13, 1, CssNodeType::Value));
    b.add_symbol("y".to_owned(), None, ReferenceType::Variable, CssNode::new(1, 1, CssNodeType::Value));
    b.add_symbol("z".to_owned(), None, ReferenceType::Variable, CssNode::new(usize::MAX, 1, CssNodeType::Value));
    let inner = b.scope_tree.find_scope(root, 13, 1).unwrap();
    assert_eq!((inner.offset, inner.length), (12, 5));
    assert!(inner.get_symbol("x", ReferenceType::Variable).is_some());
    let global = b.scope_tree.find_scope(root, 1, 1).unwrap();
    assert!(global.get_symbol("y", ReferenceType::Variable).is_some());
    assert!(global.get_symbol("x", ReferenceType::Variable).is_none());
    assert_eq!(global.get_symbols().len(), 1);
    b.add_symbol_to_child_scope(CssNode::new(30, 5, CssNodeType::Declarations), CssNode::new(31, 1, CssNodeType::Value), "w".to_owned(), None, ReferenceType::Variable);
    let opened = b.scope_tree.find_scope(root, 31, 1).unwrap();
    assert_eq!((opened.offset, opened.length), (30, 5));
    assert!(opened.get_symbol("w", ReferenceType::Variable).is_none());
}

#[test]
fn a_visitor_sees_parents_before_children_and_siblings_in_order() {
    let mut s = sample();
    let root = s.tree.root().id();
    s.tree.get_mut(s.tail).unwrap().value().add_issue(marker(21));
    s.tree.get_mut(s.value).unwrap().value().add_issue(marker(6));
    s.tree.get_mut(s.decl).unwrap().value().add_issue(marker(0));
    s.tree.get_mut(s.prop).unwrap().value().add_issue(marker(1));
    let mut collector = ParseErrorCollector::new();
    accept_visitor(CssNodeRef { tree: &s.tree, id: root }, &mut collector);
    assert_eq!(collector.entries, vec![marker(0), marker(1), marker(6), marker(21)]);
    let mut below = ParseErrorCollector::new();
    accept_visitor(CssNodeRef { tree: &s.tree, id: s.list }, &mut below);
    assert_eq!(below.entries, vec![marker(1), marker(6)]);
}

#[test]
fn a_tree_is_built_from_orphans() {
    let mut t = SourceLessCssNodeTree::new(CssNode::new(0, 10, CssNodeType::Stylesheet));
    let root = t.root();
    let a = t.orphan(CssNode::new(0, 4, CssNodeType::Value));
    let b = t.orphan(CssNode::new(5, 4, CssNodeType::Value));
    assert!(t.append(root, a));
    assert!(t.append(root, b));
    let kids = t.get(root).unwrap().children();
    assert_eq!(kids, vec![a, b]);
    assert_eq!(t.get(b).unwrap().value().offset, 5);
    let old = t.set_value(a, CssNode::new(1, 2, CssNodeType::Value));
    assert_eq!((old.offset, old.length), (0, 4));
    assert_eq!(t.get(a).unwrap().value().length, 2);
    let c = t.orphan(CssNode::new(0, 1, CssNodeType::Value));
    assert!(t.append(a, c));
    assert_eq!(t.get(a).unwrap().children(), vec![c]);
}
