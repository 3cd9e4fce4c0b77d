//! Scopes of a style sheet and the symbols declared in them.
use crate::css_node_types::{tree_links_ok, tree_wf, ReferenceType};
use crate::css_nodes::CssNode;
use ego_tree::{NodeId, Tree};
use vstd::prelude::*;

verus! {

/// A named thing declared in a style sheet: its name, its value if it has one, how it
/// can be referred to, and the node that declares it.
pub struct Symbol {
    pub name: String,
    pub value: Option<String>,
    pub ref_type: ReferenceType,
    pub node: CssNode,
}

impl Symbol {
    pub fn new(name: String, value: Option<String>, ref_type: ReferenceType, node: CssNode) -> (r:
        Self)
        ensures
            r.name == name,
            r.value == value,
            r.ref_type == ref_type,
            r.node == node,
    {
        Symbol { name, value, ref_type, node }
    }
}

/// Whether `s` is named `name` and referred to as `ref_type`.
pub open spec fn symbol_matches(s: Symbol, name: Seq<char>, ref_type: ReferenceType) -> bool {
    s.name@ == name && s.ref_type == ref_type
}

/// A range of a style sheet and the symbols declared in it, in declaration order.
pub struct Scope {
    pub offset: usize,
    pub length: usize,
    pub symbols: Vec<Symbol>,
}

impl Scope {
    pub fn new(offset: usize, length: usize) -> (r: Self)
        ensures
            r.offset == offset,
            r.length == length,
            r.symbols@.len() == 0,
    {
        Scope { offset, length, symbols: Vec::new() }
    }

    pub fn add_symbol(&mut self, symbol: Symbol)
        ensures
            final(self).symbols@ == old(self).symbols@.push(symbol),
            final(self).offset == old(self).offset,
            final(self).length == old(self).length,
    {
        self.symbols.push(symbol);
    }

    /// The first symbol declared in the scope under `name` as `ref_type`.
    pub fn get_symbol(&self, name: &str, ref_type: ReferenceType) -> (r: Option<&Symbol>)
        ensures
            r is None <==> forall|i: int|
                0 <= i < self.symbols@.len() ==> !symbol_matches(
                    #[trigger] self.symbols@[i],
                    name@,
                    ref_type,
                ),
            r matches Some(s) ==> exists|i: int|
                0 <= i < self.symbols@.len() && *s == self.symbols@[i] && symbol_matches(
                    self.symbols@[i],
                    name@,
                    ref_type,
                ) && forall|j: int|
                    0 <= j < i ==> !symbol_matches(#[trigger] self.symbols@[j], name@, ref_type),
    {
        let wanted = name.to_owned();
        let mut i: usize = 0;
        while i < self.symbols.len()
            invariant
                i <= self.symbols.len(),
                wanted@ == name@,
                forall|j: int|
                    0 <= j < i ==> !symbol_matches(#[trigger] self.symbols@[j], name@, ref_type),
            decreases self.symbols.len() - i,
        {
            let s = &self.symbols[i];
            if s.name == wanted && s.ref_type == ref_type {
                return Some(s);
            }
            i += 1;
        }
        None
    }

    pub fn get_symbols(&self) -> (r: &[Symbol])
        ensures
            r@ == self.symbols@,
    {
        self.symbols.as_slice()
    }
}

/// What a tree of scopes holds: the identifier of its root, and for each node its parent,
/// its children in order and its scope.
pub uninterp spec fn scope_tree(t: Tree<Scope>) -> (NodeId, Map<NodeId, (Option<NodeId>, Seq<NodeId>, Scope)>);

/// `Tree::new`: a tree of the one node `root`, which has no parent and no children.
#[verifier::external_body]
fn scope_tree_new(root: Scope) -> (t: Tree<Scope>)
    ensures
        scope_tree(t).1 == map![scope_tree(t).0 => (None::<NodeId>, Seq::<NodeId>::empty(), root)],
{
    Tree::new(root)
}

/// `Tree::get` and `NodeRef::value`: the scope of a node, `None` for an identifier of no
/// node of the tree.
#[verifier::external_body]
fn scope_tree_value<'a>(t: &'a Tree<Scope>, id: NodeId) -> (r: Option<&'a Scope>)
    ensures
        r is Some <==> scope_tree(*t).1.contains_key(id),
        r matches Some(v) ==> *v == scope_tree(*t).1[id].2,
{
    match t.get(id) {
        Some(n) => Some(n.value()),
        None => None,
    }
}

/// `NodeRef::children`: the children of a node of the tree, in order.
#[verifier::external_body]
fn scope_tree_children(t: &Tree<Scope>, id: NodeId) -> (r: Vec<NodeId>)
    requires
        scope_tree(*t).1.contains_key(id),
    ensures
        r@ == scope_tree(*t).1[id].1,
{
    t.get(id).unwrap().children().map(|c| c.id()).collect()
}

/// `NodeMut::append`: adds `scope` as the last child of `parent`, in a new node.
#[verifier::external_body]
fn scope_tree_append(t: &mut Tree<Scope>, parent: NodeId, scope: Scope) -> (r: NodeId)
    requires
        scope_tree(*old(t)).1.contains_key(parent),
    ensures
        !scope_tree(*old(t)).1.contains_key(r),
        scope_tree(*final(t)).0 == scope_tree(*old(t)).0,
        scope_tree(*final(t)).1 == scope_tree(*old(t)).1.insert(
            parent,
            (
                scope_tree(*old(t)).1[parent].0,
                scope_tree(*old(t)).1[parent].1.push(r),
                scope_tree(*old(t)).1[parent].2,
            ),
        ).insert(r, (Some(parent), Seq::<NodeId>::empty(), scope)),
{
    t.get_mut(parent).unwrap().append(scope).id()
}

/// `NodeMut::value` and `std::mem::replace`: puts `scope` in the node `id` and gives
/// back the scope it held.
#[verifier::external_body]
fn scope_tree_replace(t: &mut Tree<Scope>, id: NodeId, scope: Scope) -> (r: Scope)
    requires
        scope_tree(*old(t)).1.contains_key(id),
    ensures
        r == scope_tree(*old(t)).1[id].2,
        scope_tree(*final(t)).0 == scope_tree(*old(t)).0,
        scope_tree(*final(t)).1 == scope_tree(*old(t)).1.insert(
            id,
            (scope_tree(*old(t)).1[id].0, scope_tree(*old(t)).1[id].1, scope),
        ),
{
    std::mem::replace(t.get_mut(id).unwrap().value(), scope)
}

/// The index of the first of `kids[i..]` whose scope starts after `end`, or the number of
/// kids.
pub open spec fn first_starting_after(
    m: Map<NodeId, (Option<NodeId>, Seq<NodeId>, Scope)>,
    kids: Seq<NodeId>,
    end: int,
    i: int,
) -> int
    decreases kids.len() - i,
{
    if i >= kids.len() {
        kids.len() as int
    } else if m[kids[i]].2.offset > end {
        i
    } else {
        first_starting_after(m, kids, end, i + 1)
    }
}

/// The scope `find_in_scope_id` settles on going down at most `fuel` levels from `id`:
/// below each scope, the last child starting at or before the end of the range, when it
/// contains the range.
pub open spec fn innermost_scope(
    m: Map<NodeId, (Option<NodeId>, Seq<NodeId>, Scope)>,
    id: NodeId,
    offset: usize,
    length: usize,
    fuel: nat,
) -> NodeId
    decreases fuel,
{
    if fuel == 0 {
        id
    } else {
        let kids = m[id].1;
        let idx = first_starting_after(m, kids, offset + length, 0);
        if idx == 0 {
            id
        } else {
            let res = kids[idx - 1];
            if m[res].2.offset <= offset && offset + length <= m[res].2.offset + m[res].2.length {
                innermost_scope(m, res, offset, length, (fuel - 1) as nat)
            } else {
                id
            }
        }
    }
}

/// From `f0` levels on, going down settles on `r`.
pub open spec fn innermost_from(
    m: Map<NodeId, (Option<NodeId>, Seq<NodeId>, Scope)>,
    id: NodeId,
    offset: usize,
    length: usize,
    r: NodeId,
    f0: nat,
) -> bool {
    forall|f: nat| f >= f0 ==> r == #[trigger] innermost_scope(m, id, offset, length, f)
}

/// Going down far enough settles on `r`.
pub open spec fn innermost_is(
    m: Map<NodeId, (Option<NodeId>, Seq<NodeId>, Scope)>,
    id: NodeId,
    offset: usize,
    length: usize,
    r: NodeId,
) -> bool {
    exists|f0: nat| innermost_from(m, id, offset, length, r, f0)
}

/// Going down at most `fuel` levels, the end of each child scope compared with the range
/// fits in a `usize`.
pub open spec fn scope_path_ok(
    m: Map<NodeId, (Option<NodeId>, Seq<NodeId>, Scope)>,
    id: NodeId,
    offset: usize,
    length: usize,
    fuel: nat,
) -> bool
    decreases fuel,
{
    fuel == 0 || {
        let kids = m[id].1;
        let idx = first_starting_after(m, kids, offset + length, 0);
        idx == 0 || {
            let res = kids[idx - 1];
            m[res].2.offset <= offset ==> (m[res].2.offset + m[res].2.length <= usize::MAX && (
            offset + length <= m[res].2.offset + m[res].2.length ==> scope_path_ok(
                m,
                res,
                offset,
                length,
                (fuel - 1) as nat,
            )))
        }
    }
}

proof fn lemma_first_starting_after_range(
    m: Map<NodeId, (Option<NodeId>, Seq<NodeId>, Scope)>,
    kids: Seq<NodeId>,
    end: int,
    i: int,
)
    requires
        0 <= i <= kids.len(),
    ensures
        i <= first_starting_after(m, kids, end, i) <= kids.len(),
    decreases kids.len() - i,
{
    if i < kids.len() {
        lemma_first_starting_after_range(m, kids, end, i + 1);
    }
}

/// The scopes nested in one another, starting from the whole style sheet.
pub struct ScopeTree(Tree<Scope>);

impl ScopeTree {
    /// The shape of the tree.
    pub closed spec fn nodes(&self) -> Map<NodeId, (Option<NodeId>, Seq<NodeId>, Scope)> {
        scope_tree(self.0).1
    }

    /// The identifier of the root, the global scope.
    pub closed spec fn root_id(&self) -> NodeId {
        scope_tree(self.0).0
    }

    /// A tree of the global scope alone: it covers every offset.
    pub fn new() -> (r: Self)
        ensures
            r.nodes().dom() == set![r.root_id()],
            r.nodes()[r.root_id()].0 is None,
            r.nodes()[r.root_id()].1.len() == 0,
            r.nodes()[r.root_id()].2.offset == 0,
            r.nodes()[r.root_id()].2.length == usize::MAX,
            r.nodes()[r.root_id()].2.symbols@.len() == 0,
            tree_wf(r.nodes()),
    {
        let r = ScopeTree(scope_tree_new(Scope::new(0, usize::MAX)));
        proof {
            let m = r.nodes();
            assert(m.dom() =~= set![r.root_id()]);
            assert(tree_links_ok(m, map![r.root_id() => 0nat], 0));
        }
        r
    }

    /// Adds `scope` as the last child of the node `parent_id`; `false` when the tree has
    /// no such node.
    pub fn add_child(&mut self, parent_id: NodeId, scope: Scope) -> (r: bool)
        requires
            tree_wf(old(self).nodes()),
        ensures
            r == old(self).nodes().contains_key(parent_id),
            tree_wf(final(self).nodes()),
            final(self).root_id() == old(self).root_id(),
            r ==> exists|c: NodeId|
                !old(self).nodes().contains_key(c) && final(self).nodes() == old(self).nodes().insert(
                    parent_id,
                    (
                        old(self).nodes()[parent_id].0,
                        old(self).nodes()[parent_id].1.push(c),
                        old(self).nodes()[parent_id].2,
                    ),
                ).insert(c, (Some(parent_id), Seq::<NodeId>::empty(), scope)),
            !r ==> final(self).nodes() == old(self).nodes(),
    {
        if scope_tree_value(&self.0, parent_id).is_none() {
            return false;
        }
        let ghost m = self.nodes();
        let ghost (depth, bound) = choose|depth: Map<NodeId, nat>, bound: nat| tree_links_ok(m, depth, bound);
        let c = scope_tree_append(&mut self.0, parent_id, scope);
        proof {
            let m2 = self.nodes();
            let d2 = depth.insert(c, depth[parent_id] + 1);
            let b2 = bound + 1;
            assert(m[parent_id] == m[parent_id]);
            assert(m2[parent_id].1 == m[parent_id].1.push(c));
            assert(m2[parent_id].0 == m[parent_id].0);
            assert(m2[c].0 == Some(parent_id));
            assert(m2[parent_id].1[m[parent_id].1.len() as int] == c);
            assert forall|id: NodeId| #![trigger m2[id]] m2.contains_key(id) implies {
                &&& d2.contains_key(id)
                &&& d2[id] <= b2
                &&& (m2[id].0 matches Some(p) ==> m2.contains_key(p) && d2[p] < d2[id] && m2[p].1.contains(id))
                &&& forall|i: int|
                    0 <= i < m2[id].1.len() ==> m2.contains_key(#[trigger] m2[id].1[i]) && m2[m2[id].1[i]].0
                        == Some(id)
            } by {
                if id == c {
                    assert(m2[c].1.len() == 0);
                    assert(m2[parent_id].1.contains(c));
                } else {
                    assert(m.contains_key(id));
                    assert(m[id] == m[id]);
                    assert(d2[id] == depth[id]);
                    if m[id].0 is Some {
                        let p = m[id].0->0;
                        assert(m.contains_key(p));
                        assert(m[p] == m[p]);
                        assert(p != c);
                        assert(d2[p] == depth[p]);
                        assert(m2[id].0 == m[id].0);
                        if p == parent_id {
                            assert(m[p].1.contains(id));
                            let j = choose|j: int| 0 <= j < m[p].1.len() && m[p].1[j] == id;
                            assert(m2[p].1[j] == id);
                        } else {
                            assert(m2[p] == m[p]);
                        }
                    } else {
                        assert(m2[id].0 == m[id].0);
                    }
                    assert forall|i: int| 0 <= i < m2[id].1.len() implies m2.contains_key(#[trigger] m2[id].1[i])
                        && m2[m2[id].1[i]].0 == Some(id) by {
                        if id == parent_id && i == m[id].1.len() {
                            assert(m2[id].1[i] == c);
                        } else {
                            assert(m2[id].1[i] == m[id].1[i]);
                            let k = m[id].1[i];
                            assert(m.contains_key(k));
                            assert(m[k] == m[k]);
                            assert(k != c);
                            assert(m[k].0 == Some(id));
                            if k == parent_id {
                                assert(m2[k].0 == m[k].0);
                            } else {
                                assert(m2[k] == m[k]);
                            }
                        }
                    }
                }
            }
            assert(tree_links_ok(m2, d2, b2));
        }
        true
    }

    fn find_in_scope_below(
        &self,
        node: NodeId,
        offset: usize,
        length: usize,
        Ghost(depth): Ghost<Map<NodeId, nat>>,
        Ghost(bound): Ghost<nat>,
    ) -> (r: NodeId)
        requires
            tree_links_ok(self.nodes(), depth, bound),
            self.nodes().contains_key(node),
            offset + length <= usize::MAX,
            forall|f: nat| #[trigger] scope_path_ok(self.nodes(), node, offset, length, f),
        ensures
            innermost_is(self.nodes(), node, offset, length, r),
        decreases bound - depth[node],
    {
        let ghost m = self.nodes();
        let end = offset + length;
        let kids = scope_tree_children(&self.0, node);
        proof {
            assert(m[node] == m[node]);
            lemma_first_starting_after_range(m, kids@, end as int, 0);
        }
        let mut idx: usize = 0;
        while idx < kids.len()
            invariant
                kids@ == m[node].1,
                m == self.nodes(),
                tree_links_ok(m, depth, bound),
                m.contains_key(node),
                idx <= kids@.len(),
                first_starting_after(m, kids@, end as int, 0) == first_starting_after(
                    m,
                    kids@,
                    end as int,
                    idx as int,
                ),
            ensures
                idx <= kids@.len(),
                first_starting_after(m, kids@, end as int, 0) == idx,
            decreases kids@.len() - idx,
        {
            proof {
                assert(m[node] == m[node]);
                assert(m.contains_key(kids@[idx as int]));
            }
            let ch = scope_tree_value(&self.0, kids[idx]).unwrap();
            if ch.offset > end {
                break;
            }
            idx += 1;
        }
        proof {
            assert(scope_path_ok(m, node, offset, length, 1));
        }
        if idx == 0 {
            proof {
                assert forall|f: nat| f >= 1 implies node == #[trigger] innermost_scope(m, node, offset, length, f) by {}
                assert(innermost_from(m, node, offset, length, node, 1));
            }
            return node;
        }
        let res = kids[idx - 1];
        proof {
            assert(m[node] == m[node]);
            assert(m.contains_key(res));
            assert(m[res] == m[res]);
        }
        let res_scope = scope_tree_value(&self.0, res).unwrap();
        if res_scope.offset <= offset && end <= res_scope.offset + res_scope.length {
            proof {
                assert forall|f: nat| #[trigger] scope_path_ok(m, res, offset, length, f) by {
                    assert(scope_path_ok(m, node, offset, length, f + 1));
                }
            }
            let r = self.find_in_scope_below(res, offset, length, Ghost(depth), Ghost(bound));
            proof {
                let f0c = choose|f0: nat| innermost_from(m, res, offset, length, r, f0);
                assert forall|f: nat| f >= f0c + 1 implies r == #[trigger] innermost_scope(m, node, offset, length, f) by {
                    assert(r == innermost_scope(m, res, offset, length, (f - 1) as nat));
                }
                assert(innermost_from(m, node, offset, length, r, f0c + 1));
            }
            return r;
        }
        proof {
            assert forall|f: nat| f >= 1 implies node == #[trigger] innermost_scope(m, node, offset, length, f) by {}
            assert(innermost_from(m, node, offset, length, node, 1));
        }
        node
    }

    /// The innermost scope at or below the node `node_id` that contains the range
    /// `offset .. offset + length`, found by going down through the last child scope that
    /// starts at or before the end of the range, while it contains the range.
    pub fn find_in_scope_id(&self, node_id: NodeId, offset: usize, length: usize) -> (r: NodeId)
        requires
            tree_wf(self.nodes()),
            self.nodes().contains_key(node_id),
            offset + length <= usize::MAX,
            forall|f: nat| #[trigger] scope_path_ok(self.nodes(), node_id, offset, length, f),
        ensures
            innermost_is(self.nodes(), node_id, offset, length, r),
    {
        let ghost m = self.nodes();
        let ghost (depth, bound) = choose|depth: Map<NodeId, nat>, bound: nat| tree_links_ok(m, depth, bound);
        self.find_in_scope_below(node_id, offset, length, Ghost(depth), Ghost(bound))
    }

    /// The scope of the node `node_id` holds the range `offset .. offset + length`:
    /// strictly inside its end, or exactly.
    pub open spec fn holds_range(&self, node_id: NodeId, offset: usize, length: usize) -> bool {
        let s = self.nodes()[node_id].2;
        (s.offset <= offset && s.offset + s.length > offset + length) || (s.offset == offset
            && s.length == length)
    }

    /// The innermost scope under the node `node_id` that contains the range, when the
    /// node is in the tree and its scope holds the range.
    pub fn find_scope_id(&self, node_id: NodeId, offset: usize, length: usize) -> (r: Option<NodeId>)
        requires
            tree_wf(self.nodes()),
            offset + length <= usize::MAX,
            self.nodes().contains_key(node_id) ==> self.nodes()[node_id].2.offset
                + self.nodes()[node_id].2.length <= usize::MAX,
            self.nodes().contains_key(node_id) && self.holds_range(node_id, offset, length) ==> forall|f: nat|
                #[trigger] scope_path_ok(self.nodes(), node_id, offset, length, f),
        ensures
            r is Some <==> (self.nodes().contains_key(node_id) && self.holds_range(node_id, offset, length)),
            r matches Some(id) ==> innermost_is(self.nodes(), node_id, offset, length, id),
    {
        match scope_tree_value(&self.0, node_id) {
            Some(scope) => {
                if (scope.offset <= offset && scope.offset + scope.length > offset + length) || (scope.offset
                    == offset && scope.length == length) {
                    let found = self.find_in_scope_id(node_id, offset, length);
                    Some(found)
                } else {
                    None
                }
            },
            None => None,
        }
    }

    /// The innermost scope that contains the range, as `find_scope_id` finds it.
    pub fn find_scope(&self, node_id: NodeId, offset: usize, length: usize) -> (r: Option<&Scope>)
        requires
            tree_wf(self.nodes()),
            offset + length <= usize::MAX,
            self.nodes().contains_key(node_id) ==> self.nodes()[node_id].2.offset
                + self.nodes()[node_id].2.length <= usize::MAX,
            self.nodes().contains_key(node_id) && self.holds_range(node_id, offset, length) ==> forall|f: nat|
                #[trigger] scope_path_ok(self.nodes(), node_id, offset, length, f),
        ensures
            r is Some <==> (self.nodes().contains_key(node_id) && self.holds_range(node_id, offset, length)),
            r matches Some(s) ==> exists|id: NodeId|
                innermost_is(self.nodes(), node_id, offset, length, id) && *s == self.nodes()[id].2,
    {
        match self.find_scope_id(node_id, offset, length) {
            Some(id) => {
                let ghost f0 = choose|f0: nat| innermost_from(self.nodes(), node_id, offset, length, id, f0);
                proof {
                    lemma_innermost_in_tree(self.nodes(), node_id, offset, length, f0);
                    assert(id == innermost_scope(self.nodes(), node_id, offset, length, f0));
                }
                scope_tree_value(&self.0, id)
            },
            None => None,
        }
    }

    /// The identifier of the innermost scope that contains the range, for changing that
    /// scope (a mutable view into the tree cannot be handed out).
    pub fn find_scope_mut(&mut self, node_id: NodeId, offset: usize, length: usize) -> (r: Option<NodeId>)
        requires
            tree_wf(old(self).nodes()),
            offset + length <= usize::MAX,
            old(self).nodes().contains_key(node_id) ==> old(self).nodes()[node_id].2.offset
                + old(self).nodes()[node_id].2.length <= usize::MAX,
            old(self).nodes().contains_key(node_id) && old(self).holds_range(node_id, offset, length) ==> forall|f: nat|
                #[trigger] scope_path_ok(old(self).nodes(), node_id, offset, length, f),
        ensures
            final(self).nodes() == old(self).nodes(),
            final(self).root_id() == old(self).root_id(),
            r is Some <==> (old(self).nodes().contains_key(node_id) && old(self).holds_range(node_id, offset, length)),
            r matches Some(id) ==> innermost_is(old(self).nodes(), node_id, offset, length, id),
    {
        self.find_scope_id(node_id, offset, length)
    }
}

/// Going down settles on one scope only.
pub proof fn lemma_innermost_unique(
    m: Map<NodeId, (Option<NodeId>, Seq<NodeId>, Scope)>,
    id: NodeId,
    offset: usize,
    length: usize,
    r1: NodeId,
    r2: NodeId,
)
    requires
        innermost_is(m, id, offset, length, r1),
        innermost_is(m, id, offset, length, r2),
    ensures
        r1 == r2,
{
    let f1 = choose|f0: nat| innermost_from(m, id, offset, length, r1, f0);
    let f2 = choose|f0: nat| innermost_from(m, id, offset, length, r2, f0);
    let f = if f1 > f2 { f1 } else { f2 };
    assert(r1 == innermost_scope(m, id, offset, length, f));
    assert(r2 == innermost_scope(m, id, offset, length, f));
}

/// The scope the range of `css_node` falls in, under the node `node_id`, when the node
/// is placed and the scope of `node_id` holds its range.
pub open spec fn scope_of_node(t: ScopeTree, node_id: NodeId, css_node: CssNode, id: NodeId) -> bool {
    &&& css_node.offset != usize::MAX
    &&& t.nodes().contains_key(node_id)
    &&& t.holds_range(node_id, css_node.offset, css_node.length)
    &&& innermost_is(t.nodes(), node_id, css_node.offset, css_node.length, id)
}

/// What opening a scope for the range of `css_node` under `node_id` makes of the tree `t`:
/// where the innermost scope `id` that holds the range has another range, `u` is `t` with a
/// new child `c` of `id` that has the range and no symbols; otherwise `u` is `t`.
pub open spec fn scope_opened(t: ScopeTree, node_id: NodeId, css_node: CssNode, u: ScopeTree) -> bool {
    let splits = exists|id: NodeId|
        scope_of_node(t, node_id, css_node, id) && !(t.nodes()[id].2.offset == css_node.offset
            && t.nodes()[id].2.length == css_node.length);
    &&& splits ==> exists|id: NodeId, c: NodeId|
        scope_of_node(t, node_id, css_node, id) && !t.nodes().contains_key(c) && u.nodes()
            == t.nodes().insert(id, (t.nodes()[id].0, t.nodes()[id].1.push(c), t.nodes()[id].2)).insert(
            c,
            (
                Some(id),
                Seq::<NodeId>::empty(),
                Scope { offset: css_node.offset, length: css_node.length, symbols: u.nodes()[c].2.symbols },
            ),
        ) && u.nodes()[c].2.symbols@.len() == 0
    &&& !splits ==> u.nodes() == t.nodes()
}

/// Every scope of the tree ends within `usize`.
pub open spec fn scope_ends_fit(m: Map<NodeId, (Option<NodeId>, Seq<NodeId>, Scope)>) -> bool {
    forall|id: NodeId| #[trigger] m.contains_key(id) ==> m[id].2.offset + m[id].2.length <= usize::MAX
}

proof fn lemma_path_ok_when_ends_fit(
    m: Map<NodeId, (Option<NodeId>, Seq<NodeId>, Scope)>,
    id: NodeId,
    offset: usize,
    length: usize,
    fuel: nat,
)
    requires
        tree_wf(m),
        scope_ends_fit(m),
        m.contains_key(id),
        offset + length <= usize::MAX,
    ensures
        scope_path_ok(m, id, offset, length, fuel),
    decreases fuel,
{
    if fuel > 0 {
        let kids = m[id].1;
        let idx = first_starting_after(m, kids, offset + length, 0);
        lemma_first_starting_after_range(m, kids, offset + length, 0);
        if idx > 0 {
            let (depth, bound) = choose|depth: Map<NodeId, nat>, bound: nat| tree_links_ok(m, depth, bound);
            assert(m[id] == m[id]);
            let res = kids[idx - 1];
            assert(m.contains_key(res));
            lemma_path_ok_when_ends_fit(m, res, offset, length, (fuel - 1) as nat);
        }
    }
}

/// In a well-formed tree whose scopes all end within `usize`, finding the scope of any
/// range that ends within `usize` needs nothing more.
pub proof fn lemma_scope_search_fits(t: ScopeTree, node_id: NodeId, offset: usize, length: usize)
    requires
        tree_wf(t.nodes()),
        scope_ends_fit(t.nodes()),
        offset + length <= usize::MAX,
    ensures
        scope_search_fits(t, node_id, offset, length),
{
    if t.nodes().contains_key(node_id) {
        assert forall|f: nat| #[trigger] scope_path_ok(t.nodes(), node_id, offset, length, f) by {
            lemma_path_ok_when_ends_fit(t.nodes(), node_id, offset, length, f);
        }
    }
}

/// Opening a scope for a range that ends within `usize` keeps every scope ending within
/// `usize`.
pub proof fn lemma_scope_opened_fits(t: ScopeTree, node_id: NodeId, css_node: CssNode, u: ScopeTree)
    requires
        tree_wf(t.nodes()),
        scope_opened(t, node_id, css_node, u),
        scope_ends_fit(t.nodes()),
        css_node.offset + css_node.length <= usize::MAX,
    ensures
        scope_ends_fit(u.nodes()),
{
    let splits = exists|id: NodeId|
        scope_of_node(t, node_id, css_node, id) && !(t.nodes()[id].2.offset == css_node.offset
            && t.nodes()[id].2.length == css_node.length);
    if splits {
        let (id, c) = choose|id: NodeId, c: NodeId|
            scope_of_node(t, node_id, css_node, id) && !t.nodes().contains_key(c) && u.nodes()
                == t.nodes().insert(id, (t.nodes()[id].0, t.nodes()[id].1.push(c), t.nodes()[id].2)).insert(
                c,
                (
                    Some(id),
                    Seq::<NodeId>::empty(),
                    Scope { offset: css_node.offset, length: css_node.length, symbols: u.nodes()[c].2.symbols },
                ),
            ) && u.nodes()[c].2.symbols@.len() == 0;
        lemma_innermost_in_tree_is(t.nodes(), node_id, css_node.offset, css_node.length, id);
        assert forall|k: NodeId| #[trigger] u.nodes().contains_key(k) implies u.nodes()[k].2.offset
            + u.nodes()[k].2.length <= usize::MAX by {
            if k != c && k != id {
                assert(t.nodes().contains_key(k));
            }
        }
    }
}

/// What finding the scope of `css_node` under `node_id` needs: no sum overflows on the way.
pub open spec fn scope_search_fits(t: ScopeTree, node_id: NodeId, offset: usize, length: usize) -> bool {
    &&& offset + length <= usize::MAX
    &&& t.nodes().contains_key(node_id) ==> t.nodes()[node_id].2.offset + t.nodes()[node_id].2.length
        <= usize::MAX
    &&& t.nodes().contains_key(node_id) && t.holds_range(node_id, offset, length) ==> forall|f: nat|
        #[trigger] scope_path_ok(t.nodes(), node_id, offset, length, f)
}

/// Builds the scopes of a style sheet and records the symbols declared in them.
pub struct ScopeBuilder {
    pub node_id: NodeId,
    pub scope_tree: ScopeTree,
}

impl ScopeBuilder {
    pub fn new(node_id: NodeId) -> (r: Self)
        ensures
            r.node_id == node_id,
            r.scope_tree.nodes().dom() == set![r.scope_tree.root_id()],
            r.scope_tree.nodes()[r.scope_tree.root_id()].2.offset == 0,
            r.scope_tree.nodes()[r.scope_tree.root_id()].2.length == usize::MAX,
            r.scope_tree.nodes()[r.scope_tree.root_id()].2.symbols@.len() == 0,
            tree_wf(r.scope_tree.nodes()),
            scope_ends_fit(r.scope_tree.nodes()),
    {
        ScopeBuilder { node_id, scope_tree: ScopeTree::new() }
    }

    /// Records a symbol in the innermost scope that holds the range of `css_node`; a node
    /// not yet placed (offset `usize::MAX`), or a range no scope holds, records nothing.
    pub fn add_symbol(
        &mut self,
        name: String,
        value: Option<String>,
        ref_type: ReferenceType,
        css_node: CssNode,
    )
        requires
            tree_wf(old(self).scope_tree.nodes()),
            css_node.offset != usize::MAX ==> scope_search_fits(
                old(self).scope_tree,
                old(self).node_id,
                css_node.offset,
                css_node.length,
            ),
        ensures
            final(self).node_id == old(self).node_id,
            final(self).scope_tree.root_id() == old(self).scope_tree.root_id(),
            tree_wf(final(self).scope_tree.nodes()),
            (exists|id: NodeId| scope_of_node(old(self).scope_tree, old(self).node_id, css_node, id))
                ==> exists|id: NodeId|
                scope_of_node(old(self).scope_tree, old(self).node_id, css_node, id)
                    && final(self).scope_tree.nodes() == old(self).scope_tree.nodes().insert(
                    id,
                    (
                        old(self).scope_tree.nodes()[id].0,
                        old(self).scope_tree.nodes()[id].1,
                        Scope {
                            offset: old(self).scope_tree.nodes()[id].2.offset,
                            length: old(self).scope_tree.nodes()[id].2.length,
                            symbols: final(self).scope_tree.nodes()[id].2.symbols,
                        },
                    ),
                ) && final(self).scope_tree.nodes()[id].2.symbols@ == old(
                    self,
                ).scope_tree.nodes()[id].2.symbols@.push(
                    Symbol { name, value, ref_type, node: css_node },
                ),
            !(exists|id: NodeId| scope_of_node(old(self).scope_tree, old(self).node_id, css_node, id))
                ==> final(self).scope_tree.nodes() == old(self).scope_tree.nodes(),
            scope_ends_fit(old(self).scope_tree.nodes()) ==> scope_ends_fit(final(self).scope_tree.nodes()),
    {
        if css_node.offset != usize::MAX {
            let ghost old_t = self.scope_tree;
            if let Some(current) = self.scope_tree.find_scope_mut(
                self.node_id,
                css_node.offset,
                css_node.length,
            ) {
                proof {
                    lemma_innermost_in_tree_is(old_t.nodes(), self.node_id, css_node.offset, css_node.length, current);
                }
                let ghost m = self.scope_tree.nodes();
                let mut scope = scope_tree_replace(&mut self.scope_tree.0, current, Scope::new(0, 0));
                let ghost old_scope = scope;
                scope.add_symbol(Symbol::new(name, value, ref_type, css_node));
                let _ = scope_tree_replace(&mut self.scope_tree.0, current, scope);
                proof {
                    let m2 = self.scope_tree.nodes();
                    assert(m2 =~= m.insert(current, (m[current].0, m[current].1, scope)));
                    assert(m.contains_key(current));
                    assert(m2.dom() =~= m.dom());
                    lemma_same_shape_wf(m, m2);
                    assert(scope_of_node(old_t, self.node_id, css_node, current));
                    assert(m2[current].2.symbols == scope.symbols);
                    if scope_ends_fit(m) {
                        assert forall|k: NodeId| #[trigger] m2.contains_key(k) implies m2[k].2.offset
                            + m2[k].2.length <= usize::MAX by {
                            assert(m.contains_key(k));
                        }
                    }
                }
                return;
            }
            proof {
                if exists|id: NodeId| scope_of_node(old_t, self.node_id, css_node, id) {
                    let id = choose|id: NodeId| scope_of_node(old_t, self.node_id, css_node, id);
                    assert(old_t.holds_range(self.node_id, css_node.offset, css_node.length));
                }
            }
        }
    }

    /// Opens a scope for the range of `css_node` under the innermost scope that holds it,
    /// unless that scope has exactly this range; a node not yet placed opens none. Gives
    /// back nothing.
    pub fn add_scope(&mut self, css_node: CssNode) -> (r: Option<Scope>)
        requires
            tree_wf(old(self).scope_tree.nodes()),
            css_node.offset != usize::MAX ==> scope_search_fits(
                old(self).scope_tree,
                old(self).node_id,
                css_node.offset,
                css_node.length,
            ),
        ensures
            r is None,
            final(self).node_id == old(self).node_id,
            final(self).scope_tree.root_id() == old(self).scope_tree.root_id(),
            tree_wf(final(self).scope_tree.nodes()),
            scope_opened(old(self).scope_tree, old(self).node_id, css_node, final(self).scope_tree),
            scope_ends_fit(old(self).scope_tree.nodes()) ==> scope_ends_fit(final(self).scope_tree.nodes()),
    {
        let ghost old_t = self.scope_tree;
        if css_node.offset != usize::MAX {
            if let Some(current) = self.scope_tree.find_scope_id(
                self.node_id,
                css_node.offset,
                css_node.length,
            ) {
                proof {
                    lemma_innermost_in_tree_is(old_t.nodes(), self.node_id, css_node.offset, css_node.length, current);
                    assert(scope_of_node(old_t, self.node_id, css_node, current));
                }
                let cur = scope_tree_value(&self.scope_tree.0, current).unwrap();
                if cur.offset != css_node.offset || cur.length != css_node.length {
                    let new_scope = Scope::new(css_node.offset, css_node.length);
                    let _ = self.scope_tree.add_child(current, new_scope);
                } else {
                    proof {
                        assert forall|id: NodeId| scope_of_node(old_t, self.node_id, css_node, id) implies (
                        old_t.nodes()[id].2.offset == css_node.offset && old_t.nodes()[id].2.length
                            == css_node.length) by {
                            lemma_innermost_unique(old_t.nodes(), self.node_id, css_node.offset, css_node.length, id, current);
                        }
                    }
                }
                proof {
                    if scope_ends_fit(old_t.nodes()) {
                        lemma_scope_opened_fits(old_t, self.node_id, css_node, self.scope_tree);
                    }
                }
                return None;
            }
        }
        None
    }

    /// Opens a scope for the range of `scope_node`, as `add_scope` does; the symbol is
    /// not recorded, since `add_scope` gives no scope back to record it in.
    pub fn add_symbol_to_child_scope(
        &mut self,
        scope_node: CssNode,
        css_node: CssNode,
        name: String,
        value: Option<String>,
        ref_type: ReferenceType,
    )
        requires
            tree_wf(old(self).scope_tree.nodes()),
            scope_node.offset != usize::MAX ==> scope_search_fits(
                old(self).scope_tree,
                old(self).node_id,
                scope_node.offset,
                scope_node.length,
            ),
        ensures
            final(self).node_id == old(self).node_id,
            final(self).scope_tree.root_id() == old(self).scope_tree.root_id(),
            tree_wf(final(self).scope_tree.nodes()),
            scope_opened(old(self).scope_tree, old(self).node_id, scope_node, final(self).scope_tree),
            scope_ends_fit(old(self).scope_tree.nodes()) ==> scope_ends_fit(final(self).scope_tree.nodes()),
    {
        if scope_node.offset != usize::MAX {
            let _ = self.add_scope(scope_node);
        }
    }
}

/// Changing only the values of a tree keeps it well-formed.
proof fn lemma_same_shape_wf(
    m: Map<NodeId, (Option<NodeId>, Seq<NodeId>, Scope)>,
    m2: Map<NodeId, (Option<NodeId>, Seq<NodeId>, Scope)>,
)
    requires
        tree_wf(m),
        m2.dom() == m.dom(),
        forall|id: NodeId| #[trigger] m2.contains_key(id) ==> m2[id].0 == m[id].0 && m2[id].1 == m[id].1,
    ensures
        tree_wf(m2),
{
    let (depth, bound) = choose|depth: Map<NodeId, nat>, bound: nat| tree_links_ok(m, depth, bound);
    assert forall|id: NodeId| #![trigger m2[id]] m2.contains_key(id) implies {
        &&& depth.contains_key(id)
        &&& depth[id] <= bound
        &&& (m2[id].0 matches Some(p) ==> m2.contains_key(p) && depth[p] < depth[id] && m2[p].1.contains(id))
        &&& forall|i: int|
            0 <= i < m2[id].1.len() ==> m2.contains_key(#[trigger] m2[id].1[i]) && m2[m2[id].1[i]].0
                == Some(id)
    } by {
        assert(m.contains_key(id));
        assert(m[id] == m[id]);
        if m[id].0 is Some {
            let p = m[id].0->0;
            assert(m.contains_key(p));
            assert(m2.contains_key(p));
        }
        assert forall|i: int| 0 <= i < m2[id].1.len() implies m2.contains_key(#[trigger] m2[id].1[i])
            && m2[m2[id].1[i]].0 == Some(id) by {
            let k = m[id].1[i];
            assert(m[k] == m[k]);
            assert(m2.contains_key(k));
        }
    }
    assert(tree_links_ok(m2, depth, bound));
}

/// Where going down from a node of the tree settles is a node of the tree.
proof fn lemma_innermost_in_tree_is(
    m: Map<NodeId, (Option<NodeId>, Seq<NodeId>, Scope)>,
    id: NodeId,
    offset: usize,
    length: usize,
    r: NodeId,
)
    requires
        tree_wf(m),
        m.contains_key(id),
        innermost_is(m, id, offset, length, r),
    ensures
        m.contains_key(r),
{
    let f0 = choose|f0: nat| innermost_from(m, id, offset, length, r, f0);
    assert(r == innermost_scope(m, id, offset, length, f0));
    lemma_innermost_in_tree(m, id, offset, length, f0);
}

/// Where going down from a node of the tree settles is a node of the tree.
proof fn lemma_innermost_in_tree(
    m: Map<NodeId, (Option<NodeId>, Seq<NodeId>, Scope)>,
    id: NodeId,
    offset: usize,
    length: usize,
    fuel: nat,
)
    requires
        tree_wf(m),
        m.contains_key(id),
    ensures
        m.contains_key(innermost_scope(m, id, offset, length, fuel)),
    decreases fuel,
{
    if fuel > 0 {
        let kids = m[id].1;
        let idx = first_starting_after(m, kids, offset + length, 0);
        lemma_first_starting_after_range(m, kids, offset + length, 0);
        if idx > 0 {
            let (depth, bound) = choose|depth: Map<NodeId, nat>, bound: nat| tree_links_ok(m, depth, bound);
            assert(m[id] == m[id]);
            assert(m.contains_key(kids[idx - 1]));
            lemma_innermost_in_tree(m, kids[idx - 1], offset, length, (fuel - 1) as nat);
        }
    }
}

} // verus!
