//! The kinds of syntax nodes of the CSS tree, with the data each kind carries.
//! Nodes refer to one another by the identifiers of the tree that holds them.
use crate::css_nodes::{CssNodeRef, CssNodeTree};
use ego_tree::NodeId;
use vstd::prelude::*;

verus! {

/// The identifier of a node of a tree; the library only carries it through.
#[verifier::external_type_specification]
#[verifier::external_body]
pub struct ExNodeId(NodeId);

/// A tree whose nodes hold values of type `T`; what it holds is modelled where a kind
/// of tree is used.
#[verifier::external_type_specification]
#[verifier::external_body]
#[verifier::reject_recursive_types(T)]
pub struct ExTree<T>(ego_tree::Tree<T>);

/// `NodeId`'s `==`: two identifiers are equal when they name the same slot of a tree.
#[verifier::external_body]
pub(crate) fn node_id_eq(a: NodeId, b: NodeId) -> (r: bool)
    ensures
        r == (a == b),
{
    a == b
}

/// The shape of a tree as a map from each node to its parent, its children in order and
/// its value: every node it links to is in the map, a node's children have it as their
/// parent and a node is among the children of its parent, and going to a parent
/// lowers `depth`, which `bound` bounds, so no walk along the links goes round.
pub open spec fn tree_links_ok<V>(
    m: Map<NodeId, (Option<NodeId>, Seq<NodeId>, V)>,
    depth: Map<NodeId, nat>,
    bound: nat,
) -> bool {
    forall|id: NodeId|
        #![trigger m[id]]
        m.contains_key(id) ==> {
            &&& depth.contains_key(id)
            &&& depth[id] <= bound
            &&& (m[id].0 matches Some(p) ==> m.contains_key(p) && depth[p] < depth[id]
                && m[p].1.contains(id))
            &&& forall|i: int|
                0 <= i < m[id].1.len() ==> m.contains_key(#[trigger] m[id].1[i]) && m[m[id].1[i]].0
                    == Some(id)
        }
}

/// A tree shape whose links are consistent and go round nowhere.
pub open spec fn tree_wf<V>(m: Map<NodeId, (Option<NodeId>, Seq<NodeId>, V)>) -> bool {
    exists|depth: Map<NodeId, nat>, bound: nat| tree_links_ok(m, depth, bound)
}

/// The node `k` steps up from `id` along parent links, if the walk gets that far.
pub open spec fn ancestor<V>(m: Map<NodeId, (Option<NodeId>, Seq<NodeId>, V)>, id: NodeId, k: nat) -> Option<
    NodeId,
>
    decreases k,
{
    if k == 0 {
        Some(id)
    } else {
        match ancestor(m, id, (k - 1) as nat) {
            Some(a) => if m.contains_key(a) {
                m[a].0
            } else {
                None
            },
            None => None,
        }
    }
}

#[derive(Debug, Clone, Copy, PartialEq, Eq, Structural)]
pub enum ReferenceType {
    Mixin,
    Rule,
    Variable,
    Function,
    Keyframe,
    Unknown,
    Module,
    Forward,
    ForwardVisibility,
    Property,
}

/// Nodes for the CSS 2.1 grammar.
#[derive(Debug, PartialEq)]
pub enum CssNodeType {
    ROOT,
    _BodyDeclaration(BodyDeclaration),
    _AbstractDeclaration(AbstractDeclaration),
    _Invocation(Invocation),
    LessGuard,
    Variable,
    CustomPropertyValue,
    Medialist,
    Nodelist,
    Undefined,
    Identifier(Identifier),
    Stylesheet,
    Selector,
    SimpleSelector,
    SelectorInterpolation,
    SelectorCombinator,
    SelectorCombinatorParent,
    SelectorCombinatorSibling,
    SelectorCombinatorAllSiblings,
    SelectorCombinatorShadowPiercingDescendant,
    ClassSelector,
    IdentifierSelector,
    ElementNameSelector,
    PseudoSelector,
    AttributeSelector(AttributeSelector),
    Declarations,
    Property(Property),
    Expression,
    BinaryExpression(BinaryExpression),
    Term(Term),
    Operator,
    Value,
    StringLiteral,
    URILiteral,
    EscapedValue,
    NumericValue,
    HexColorValue,
    RatioValue,
    MixinReference(MixinReference),
    VariableName,
    VariableDeclaration(VariableDeclaration),
    Prio,
    Interpolation,
    ExtendsReference,
    SelectorPlaceholder,
    Debug,
    MixinContentReference,
    Import,
    Namespace,
    ReturnStatement,
    MediaQuery,
    MediaCondition,
    MediaFeature,
    FunctionParameter,
    FunctionArgument(FunctionArgument),
    AtApplyRule,
    ListEntry,
    SupportsCondition(SupportsCondition),
    NamespacePrefix,
    GridLine,
    Plugin,
    Use,
    ModuleConfiguration,
    Forward,
    ForwardVisibility,
    Module,
    UnicodeRange(UnicodeRange),
    LayerNameList,
    LayerName,
}

impl Default for CssNodeType {
    fn default() -> (r: Self)
        ensures
            r is ROOT,
    {
        CssNodeType::ROOT
    }
}

impl CssNodeType {
    /// Which variant a node type is, by its position in the declaration.
    pub open spec fn kind_index(self) -> nat {
        match self {
            CssNodeType::ROOT => 0,
            CssNodeType::_BodyDeclaration(..) => 1,
            CssNodeType::_AbstractDeclaration(..) => 2,
            CssNodeType::_Invocation(..) => 3,
            CssNodeType::LessGuard => 4,
            CssNodeType::Variable => 5,
            CssNodeType::CustomPropertyValue => 6,
            CssNodeType::Medialist => 7,
            CssNodeType::Nodelist => 8,
            CssNodeType::Undefined => 9,
            CssNodeType::Identifier(..) => 10,
            CssNodeType::Stylesheet => 11,
            CssNodeType::Selector => 12,
            CssNodeType::SimpleSelector => 13,
            CssNodeType::SelectorInterpolation => 14,
            CssNodeType::SelectorCombinator => 15,
            CssNodeType::SelectorCombinatorParent => 16,
            CssNodeType::SelectorCombinatorSibling => 17,
            CssNodeType::SelectorCombinatorAllSiblings => 18,
            CssNodeType::SelectorCombinatorShadowPiercingDescendant => 19,
            CssNodeType::ClassSelector => 20,
            CssNodeType::IdentifierSelector => 21,
            CssNodeType::ElementNameSelector => 22,
            CssNodeType::PseudoSelector => 23,
            CssNodeType::AttributeSelector(..) => 24,
            CssNodeType::Declarations => 25,
            CssNodeType::Property(..) => 26,
            CssNodeType::Expression => 27,
            CssNodeType::BinaryExpression(..) => 28,
            CssNodeType::Term(..) => 29,
            CssNodeType::Operator => 30,
            CssNodeType::Value => 31,
            CssNodeType::StringLiteral => 32,
            CssNodeType::URILiteral => 33,
            CssNodeType::EscapedValue => 34,
            CssNodeType::NumericValue => 35,
            CssNodeType::HexColorValue => 36,
            CssNodeType::RatioValue => 37,
            CssNodeType::MixinReference(..) => 38,
            CssNodeType::VariableName => 39,
            CssNodeType::VariableDeclaration(..) => 40,
            CssNodeType::Prio => 41,
            CssNodeType::Interpolation => 42,
            CssNodeType::ExtendsReference => 43,
            CssNodeType::SelectorPlaceholder => 44,
            CssNodeType::Debug => 45,
            CssNodeType::MixinContentReference => 46,
            CssNodeType::Import => 47,
            CssNodeType::Namespace => 48,
            CssNodeType::ReturnStatement => 49,
            CssNodeType::MediaQuery => 50,
            CssNodeType::MediaCondition => 51,
            CssNodeType::MediaFeature => 52,
            CssNodeType::FunctionParameter => 53,
            CssNodeType::FunctionArgument(..) => 54,
            CssNodeType::AtApplyRule => 55,
            CssNodeType::ListEntry => 56,
            CssNodeType::SupportsCondition(..) => 57,
            CssNodeType::NamespacePrefix => 58,
            CssNodeType::GridLine => 59,
            CssNodeType::Plugin => 60,
            CssNodeType::Use => 61,
            CssNodeType::ModuleConfiguration => 62,
            CssNodeType::Forward => 63,
            CssNodeType::ForwardVisibility => 64,
            CssNodeType::Module => 65,
            CssNodeType::UnicodeRange(..) => 66,
            CssNodeType::LayerNameList => 67,
            CssNodeType::LayerName => 68,
        }
    }

    fn kind(&self) -> (r: u8)
        ensures
            r == self.kind_index(),
    {
        match self {
            CssNodeType::ROOT => 0,
            CssNodeType::_BodyDeclaration(..) => 1,
            CssNodeType::_AbstractDeclaration(..) => 2,
            CssNodeType::_Invocation(..) => 3,
            CssNodeType::LessGuard => 4,
            CssNodeType::Variable => 5,
            CssNodeType::CustomPropertyValue => 6,
            CssNodeType::Medialist => 7,
            CssNodeType::Nodelist => 8,
            CssNodeType::Undefined => 9,
            CssNodeType::Identifier(..) => 10,
            CssNodeType::Stylesheet => 11,
            CssNodeType::Selector => 12,
            CssNodeType::SimpleSelector => 13,
            CssNodeType::SelectorInterpolation => 14,
            CssNodeType::SelectorCombinator => 15,
            CssNodeType::SelectorCombinatorParent => 16,
            CssNodeType::SelectorCombinatorSibling => 17,
            CssNodeType::SelectorCombinatorAllSiblings => 18,
            CssNodeType::SelectorCombinatorShadowPiercingDescendant => 19,
            CssNodeType::ClassSelector => 20,
            CssNodeType::IdentifierSelector => 21,
            CssNodeType::ElementNameSelector => 22,
            CssNodeType::PseudoSelector => 23,
            CssNodeType::AttributeSelector(..) => 24,
            CssNodeType::Declarations => 25,
            CssNodeType::Property(..) => 26,
            CssNodeType::Expression => 27,
            CssNodeType::BinaryExpression(..) => 28,
            CssNodeType::Term(..) => 29,
            CssNodeType::Operator => 30,
            CssNodeType::Value => 31,
            CssNodeType::StringLiteral => 32,
            CssNodeType::URILiteral => 33,
            CssNodeType::EscapedValue => 34,
            CssNodeType::NumericValue => 35,
            CssNodeType::HexColorValue => 36,
            CssNodeType::RatioValue => 37,
            CssNodeType::MixinReference(..) => 38,
            CssNodeType::VariableName => 39,
            CssNodeType::VariableDeclaration(..) => 40,
            CssNodeType::Prio => 41,
            CssNodeType::Interpolation => 42,
            CssNodeType::ExtendsReference => 43,
            CssNodeType::SelectorPlaceholder => 44,
            CssNodeType::Debug => 45,
            CssNodeType::MixinContentReference => 46,
            CssNodeType::Import => 47,
            CssNodeType::Namespace => 48,
            CssNodeType::ReturnStatement => 49,
            CssNodeType::MediaQuery => 50,
            CssNodeType::MediaCondition => 51,
            CssNodeType::MediaFeature => 52,
            CssNodeType::FunctionParameter => 53,
            CssNodeType::FunctionArgument(..) => 54,
            CssNodeType::AtApplyRule => 55,
            CssNodeType::ListEntry => 56,
            CssNodeType::SupportsCondition(..) => 57,
            CssNodeType::NamespacePrefix => 58,
            CssNodeType::GridLine => 59,
            CssNodeType::Plugin => 60,
            CssNodeType::Use => 61,
            CssNodeType::ModuleConfiguration => 62,
            CssNodeType::Forward => 63,
            CssNodeType::ForwardVisibility => 64,
            CssNodeType::Module => 65,
            CssNodeType::UnicodeRange(..) => 66,
            CssNodeType::LayerNameList => 67,
            CssNodeType::LayerName => 68,
        }
    }

    /// Whether two node types are of the same kind: the same variant, and for
    /// body declarations the same kind of body, for plain declarations whether
    /// both are or both are not custom property declarations, and for invocations
    /// whether both are or both are not functions. Any two abstract declarations
    /// that are not both plain declarations are of the same kind.
    pub open spec fn same_kind(self, other: Self) -> bool {
        match (self, other) {
            (CssNodeType::_BodyDeclaration(a), CssNodeType::_BodyDeclaration(b)) => {
                a.body_decl_type.kind_index() == b.body_decl_type.kind_index()
            },
            (CssNodeType::_AbstractDeclaration(a), CssNodeType::_AbstractDeclaration(b)) => {
                match (a.abstract_decl_type, b.abstract_decl_type) {
                    (AbstractDeclarationType::Declaration(x), AbstractDeclarationType::Declaration(y)) => {
                        (x.declaration_type is Declaration) == (y.declaration_type is Declaration)
                    },
                    _ => true,
                }
            },
            (CssNodeType::_Invocation(a), CssNodeType::_Invocation(b)) => {
                (a.invocation_type is Invocation) == (b.invocation_type is Invocation)
            },
            _ => self.kind_index() == other.kind_index(),
        }
    }

    pub fn same_node_type(&self, other: &Self) -> (r: bool)
        ensures
            r == self.same_kind(*other),
    {
        match self {
            CssNodeType::_BodyDeclaration(a) => {
                if let CssNodeType::_BodyDeclaration(b) = other {
                    return a.body_decl_type.kind() == b.body_decl_type.kind();
                }
            },
            CssNodeType::_AbstractDeclaration(a) => {
                if let CssNodeType::_AbstractDeclaration(b) = other {
                    if let AbstractDeclarationType::Declaration(x) = &a.abstract_decl_type {
                        if let AbstractDeclarationType::Declaration(y) = &b.abstract_decl_type {
                            let xd = matches!(x.declaration_type, DeclarationType::Declaration);
                            let yd = matches!(y.declaration_type, DeclarationType::Declaration);
                            return xd == yd;
                        }
                    }
                    return true;
                }
            },
            CssNodeType::_Invocation(a) => {
                if let CssNodeType::_Invocation(b) = other {
                    let xi = matches!(a.invocation_type, InvocationType::Invocation);
                    let yi = matches!(b.invocation_type, InvocationType::Invocation);
                    return xi == yi;
                }
            },
            _ => {},
        }
        self.kind() == other.kind()
    }
}

impl CssNodeType {
    /// The body declaration this node type holds.
    pub fn unchecked_body_decl(&mut self) -> (r: &mut BodyDeclaration)
        requires
            *old(self) is _BodyDeclaration,
        ensures
            *r == (*old(self))->_BodyDeclaration_0,
            *final(self) == CssNodeType::_BodyDeclaration(*final(r)),
    {
        match self {
            CssNodeType::_BodyDeclaration(b) => b,
            _ => unreached(),
        }
    }

    /// The rule set this body declaration is.
    pub fn unchecked_rule_set(&mut self) -> (r: &mut RuleSet)
        requires
            *old(self) matches CssNodeType::_BodyDeclaration(b) && b.body_decl_type is RuleSet,
        ensures
            *r == (*old(self))->_BodyDeclaration_0.body_decl_type->RuleSet_0,
            *final(self) == (CssNodeType::_BodyDeclaration(BodyDeclaration {
                declarations: (*old(self))->_BodyDeclaration_0.declarations,
                body_decl_type: BodyDeclarationType::RuleSet(*final(r)),
            })),
    {
        match self {
            CssNodeType::_BodyDeclaration(b) => match &mut b.body_decl_type {
                BodyDeclarationType::RuleSet(r) => r,
                _ => unreached(),
            },
            _ => unreached(),
        }
    }

    /// The rule set this body declaration is, for reading.
    pub fn unchecked_rule_set_ref(&self) -> (r: &RuleSet)
        requires
            *self matches CssNodeType::_BodyDeclaration(b) && b.body_decl_type is RuleSet,
        ensures
            *r == self->_BodyDeclaration_0.body_decl_type->RuleSet_0,
    {
        match self {
            CssNodeType::_BodyDeclaration(b) => match &b.body_decl_type {
                BodyDeclarationType::RuleSet(r) => r,
                _ => unreached(),
            },
            _ => unreached(),
        }
    }

    /// The keyframe this body declaration is.
    pub fn unchecked_inner_keyword(&mut self) -> (r: &mut Keyframe)
        requires
            *old(self) matches CssNodeType::_BodyDeclaration(b) && b.body_decl_type is Keyframe,
        ensures
            *r == (*old(self))->_BodyDeclaration_0.body_decl_type->Keyframe_0,
            *final(self) == (CssNodeType::_BodyDeclaration(BodyDeclaration {
                declarations: (*old(self))->_BodyDeclaration_0.declarations,
                body_decl_type: BodyDeclarationType::Keyframe(*final(r)),
            })),
    {
        match self {
            CssNodeType::_BodyDeclaration(b) => match &mut b.body_decl_type {
                BodyDeclarationType::Keyframe(k) => k,
                _ => unreached(),
            },
            _ => unreached(),
        }
    }

    /// The layer this body declaration is.
    pub fn unchecked_layer(&mut self) -> (r: &mut Layer)
        requires
            *old(self) matches CssNodeType::_BodyDeclaration(b) && b.body_decl_type is Layer,
        ensures
            *r == (*old(self))->_BodyDeclaration_0.body_decl_type->Layer_0,
            *final(self) == (CssNodeType::_BodyDeclaration(BodyDeclaration {
                declarations: (*old(self))->_BodyDeclaration_0.declarations,
                body_decl_type: BodyDeclarationType::Layer(*final(r)),
            })),
    {
        match self {
            CssNodeType::_BodyDeclaration(b) => match &mut b.body_decl_type {
                BodyDeclarationType::Layer(l) => l,
                _ => unreached(),
            },
            _ => unreached(),
        }
    }

    /// The `@property` rule this body declaration is.
    pub fn unchecked_property_at_rule(&mut self) -> (r: &mut PropertyAtRule)
        requires
            *old(self) matches CssNodeType::_BodyDeclaration(b) && b.body_decl_type is PropertyAtRule,
        ensures
            *r == (*old(self))->_BodyDeclaration_0.body_decl_type->PropertyAtRule_0,
            *final(self) == (CssNodeType::_BodyDeclaration(BodyDeclaration {
                declarations: (*old(self))->_BodyDeclaration_0.declarations,
                body_decl_type: BodyDeclarationType::PropertyAtRule(*final(r)),
            })),
    {
        match self {
            CssNodeType::_BodyDeclaration(b) => match &mut b.body_decl_type {
                BodyDeclarationType::PropertyAtRule(p) => p,
                _ => unreached(),
            },
            _ => unreached(),
        }
    }

    /// The mixin declaration this body declaration is.
    pub fn unchecked_mixin_declaration(&mut self) -> (r: &mut MixinDeclaration)
        requires
            *old(self) matches CssNodeType::_BodyDeclaration(b) && b.body_decl_type is MixinDeclaration,
        ensures
            *r == (*old(self))->_BodyDeclaration_0.body_decl_type->MixinDeclaration_0,
            *final(self) == (CssNodeType::_BodyDeclaration(BodyDeclaration {
                declarations: (*old(self))->_BodyDeclaration_0.declarations,
                body_decl_type: BodyDeclarationType::MixinDeclaration(*final(r)),
            })),
    {
        match self {
            CssNodeType::_BodyDeclaration(b) => match &mut b.body_decl_type {
                BodyDeclarationType::MixinDeclaration(m) => m,
                _ => unreached(),
            },
            _ => unreached(),
        }
    }

    /// The mixin declaration this body declaration is, for reading.
    pub fn unchecked_mixin_declaration_ref(&self) -> (r: &MixinDeclaration)
        requires
            *self matches CssNodeType::_BodyDeclaration(b) && b.body_decl_type is MixinDeclaration,
        ensures
            *r == self->_BodyDeclaration_0.body_decl_type->MixinDeclaration_0,
    {
        match self {
            CssNodeType::_BodyDeclaration(b) => match &b.body_decl_type {
                BodyDeclarationType::MixinDeclaration(m) => m,
                _ => unreached(),
            },
            _ => unreached(),
        }
    }

    /// The abstract declaration this node type holds.
    pub fn unchecked_abst_decl_inner(&mut self) -> (r: &mut AbstractDeclaration)
        requires
            *old(self) is _AbstractDeclaration,
        ensures
            *r == (*old(self))->_AbstractDeclaration_0,
            *final(self) == CssNodeType::_AbstractDeclaration(*final(r)),
    {
        match self {
            CssNodeType::_AbstractDeclaration(a) => a,
            _ => unreached(),
        }
    }

    /// The declaration this abstract declaration is.
    pub fn unchecked_abst_decl_decl_decl_inner(&mut self) -> (r: &mut Declaration)
        requires
            *old(self) matches CssNodeType::_AbstractDeclaration(a)
                && a.abstract_decl_type is Declaration,
        ensures
            *r == (*old(self))->_AbstractDeclaration_0.abstract_decl_type->Declaration_0,
            *final(self) == (CssNodeType::_AbstractDeclaration(AbstractDeclaration {
                colon_position: (*old(self))->_AbstractDeclaration_0.colon_position,
                semicolon_position: (*old(self))->_AbstractDeclaration_0.semicolon_position,
                abstract_decl_type: AbstractDeclarationType::Declaration(*final(r)),
            })),
    {
        match self {
            CssNodeType::_AbstractDeclaration(a) => match &mut a.abstract_decl_type {
                AbstractDeclarationType::Declaration(d) => d,
                _ => unreached(),
            },
            _ => unreached(),
        }
    }

    /// The declaration this abstract declaration is, for reading.
    pub fn unchecked_abst_decl_decl_decl_inner_ref(&self) -> (r: &Declaration)
        requires
            *self matches CssNodeType::_AbstractDeclaration(a) && a.abstract_decl_type is Declaration,
        ensures
            *r == self->_AbstractDeclaration_0.abstract_decl_type->Declaration_0,
    {
        match self {
            CssNodeType::_AbstractDeclaration(a) => match &a.abstract_decl_type {
                AbstractDeclarationType::Declaration(d) => d,
                _ => unreached(),
            },
            _ => unreached(),
        }
    }

    /// The custom property declaration this declaration is.
    pub fn unchecked_abst_decl_decl_custom_prop_decl_inner(&mut self) -> (r:
        &mut CustomPropertyDeclaration)
        requires
            *old(self) matches CssNodeType::_AbstractDeclaration(a)
                && a.abstract_decl_type matches AbstractDeclarationType::Declaration(d)
                && d.declaration_type is CustomPropertyDeclaration,
        ensures
            *r == (*old(self))->_AbstractDeclaration_0.abstract_decl_type->Declaration_0.declaration_type->CustomPropertyDeclaration_0,
            *final(self) == (CssNodeType::_AbstractDeclaration(AbstractDeclaration {
                colon_position: (*old(self))->_AbstractDeclaration_0.colon_position,
                semicolon_position: (*old(self))->_AbstractDeclaration_0.semicolon_position,
                abstract_decl_type: AbstractDeclarationType::Declaration(Declaration {
                    property: (*old(self))->_AbstractDeclaration_0.abstract_decl_type->Declaration_0.property,
                    expr: (*old(self))->_AbstractDeclaration_0.abstract_decl_type->Declaration_0.expr,
                    nested_properties: (*old(self))->_AbstractDeclaration_0.abstract_decl_type->Declaration_0.nested_properties,
                    declaration_type: DeclarationType::CustomPropertyDeclaration(*final(r)),
                }),
            })),
    {
        match self {
            CssNodeType::_AbstractDeclaration(a) => match &mut a.abstract_decl_type {
                AbstractDeclarationType::Declaration(d) => match &mut d.declaration_type {
                    DeclarationType::CustomPropertyDeclaration(c) => c,
                    _ => unreached(),
                },
                _ => unreached(),
            },
            _ => unreached(),
        }
    }

    /// The property this node type holds.
    pub fn unchecked_inner_property(&mut self) -> (r: &mut Property)
        requires
            *old(self) is Property,
        ensures
            *r == (*old(self))->Property_0,
            *final(self) == CssNodeType::Property(*final(r)),
    {
        match self {
            CssNodeType::Property(p) => p,
            _ => unreached(),
        }
    }

    /// The function this invocation is.
    pub fn unchecked_function(&mut self) -> (r: &mut Function)
        requires
            *old(self) matches CssNodeType::_Invocation(i) && i.invocation_type is Function,
        ensures
            *r == (*old(self))->_Invocation_0.invocation_type->Function_0,
            *final(self) == (CssNodeType::_Invocation(Invocation {
                arguments: (*old(self))->_Invocation_0.arguments,
                invocation_type: InvocationType::Function(*final(r)),
            })),
    {
        match self {
            CssNodeType::_Invocation(i) => match &mut i.invocation_type {
                InvocationType::Function(f) => f,
                _ => unreached(),
            },
            _ => unreached(),
        }
    }

    /// The function argument this node type holds.
    pub fn unchecked_function_argument(&mut self) -> (r: &mut FunctionArgument)
        requires
            *old(self) is FunctionArgument,
        ensures
            *r == (*old(self))->FunctionArgument_0,
            *final(self) == CssNodeType::FunctionArgument(*final(r)),
    {
        match self {
            CssNodeType::FunctionArgument(fa) => fa,
            _ => unreached(),
        }
    }

    /// The supports condition this node type holds.
    pub fn unchecked_supports_condition(&mut self) -> (r: &mut SupportsCondition)
        requires
            *old(self) is SupportsCondition,
        ensures
            *r == (*old(self))->SupportsCondition_0,
            *final(self) == CssNodeType::SupportsCondition(*final(r)),
    {
        match self {
            CssNodeType::SupportsCondition(c) => c,
            _ => unreached(),
        }
    }

    /// The binary expression this node type holds.
    pub fn unchecked_binary_expr(&mut self) -> (r: &mut BinaryExpression)
        requires
            *old(self) is BinaryExpression,
        ensures
            *r == (*old(self))->BinaryExpression_0,
            *final(self) == CssNodeType::BinaryExpression(*final(r)),
    {
        match self {
            CssNodeType::BinaryExpression(b) => b,
            _ => unreached(),
        }
    }

    /// The term this node type holds.
    pub fn unchecked_term(&mut self) -> (r: &mut Term)
        requires
            *old(self) is Term,
        ensures
            *r == (*old(self))->Term_0,
            *final(self) == CssNodeType::Term(*final(r)),
    {
        match self {
            CssNodeType::Term(t) => t,
            _ => unreached(),
        }
    }

    /// The attribute selector this node type holds.
    pub fn unchecked_attribute_selector(&mut self) -> (r: &mut AttributeSelector)
        requires
            *old(self) is AttributeSelector,
        ensures
            *r == (*old(self))->AttributeSelector_0,
            *final(self) == CssNodeType::AttributeSelector(*final(r)),
    {
        match self {
            CssNodeType::AttributeSelector(a) => a,
            _ => unreached(),
        }
    }
}

#[derive(Debug, PartialEq)]
pub struct UnicodeRange {
    pub range_start: NodeId,
    pub range_end: NodeId,
}

#[derive(Debug, PartialEq)]
pub struct Identifier {
    pub reference_types: Option<Vec<ReferenceType>>,
    pub is_custom_property: bool,
}

impl Identifier {
    /// Whether the identifier's node `self_node` has children (interpolated parts).
    pub fn contains_interpolation(&self, self_node: CssNodeRef) -> (r: bool)
        requires
            self_node.nodes().contains_key(self_node.id),
        ensures
            r == (self_node.nodes()[self_node.id].1.len() > 0),
    {
        self_node.children().len() > 0
    }
}

#[derive(Debug, PartialEq)]
pub struct AtApplyRule {
    pub identifier: NodeId,
}

#[derive(Debug, PartialEq)]
pub struct BodyDeclaration {
    pub declarations: Option<NodeId>,
    pub body_decl_type: BodyDeclarationType,
}

#[derive(Debug, PartialEq)]
pub enum BodyDeclarationType {
    RuleSet(RuleSet),
    CustomPropertySet,
    IfStatement(IfStatement),
    ForStatement(ForStatement),
    EachStatement(EachStatement),
    WhileStatement,
    ElseStatement,
    FunctionDeclaration(FunctionDeclaration),
    ViewPort,
    FontFace,
    NestedProperties,
    Keyframe(Keyframe),
    KeyframeSelector,
    Media,
    Supports,
    Layer(Layer),
    PropertyAtRule(PropertyAtRule),
    Document,
    Container,
    Page,
    PageBoxMarginBox,
    MixinContentDeclaration(MixinContentDeclaration),
    MixinDeclaration(MixinDeclaration),
    UnknownAtRule(UnknownAtRule),
}

impl BodyDeclarationType {
    /// Which variant a body kind is, by its position in the declaration.
    pub open spec fn kind_index(self) -> nat {
        match self {
            BodyDeclarationType::RuleSet(..) => 0,
            BodyDeclarationType::CustomPropertySet => 1,
            BodyDeclarationType::IfStatement(..) => 2,
            BodyDeclarationType::ForStatement(..) => 3,
            BodyDeclarationType::EachStatement(..) => 4,
            BodyDeclarationType::WhileStatement => 5,
            BodyDeclarationType::ElseStatement => 6,
            BodyDeclarationType::FunctionDeclaration(..) => 7,
            BodyDeclarationType::ViewPort => 8,
            BodyDeclarationType::FontFace => 9,
            BodyDeclarationType::NestedProperties => 10,
            BodyDeclarationType::Keyframe(..) => 11,
            BodyDeclarationType::KeyframeSelector => 12,
            BodyDeclarationType::Media => 13,
            BodyDeclarationType::Supports => 14,
            BodyDeclarationType::Layer(..) => 15,
            BodyDeclarationType::PropertyAtRule(..) => 16,
            BodyDeclarationType::Document => 17,
            BodyDeclarationType::Container => 18,
            BodyDeclarationType::Page => 19,
            BodyDeclarationType::PageBoxMarginBox => 20,
            BodyDeclarationType::MixinContentDeclaration(..) => 21,
            BodyDeclarationType::MixinDeclaration(..) => 22,
            BodyDeclarationType::UnknownAtRule(..) => 23,
        }
    }

    fn kind(&self) -> (r: u8)
        ensures
            r == self.kind_index(),
    {
        match self {
            BodyDeclarationType::RuleSet(..) => 0,
            BodyDeclarationType::CustomPropertySet => 1,
            BodyDeclarationType::IfStatement(..) => 2,
            BodyDeclarationType::ForStatement(..) => 3,
            BodyDeclarationType::EachStatement(..) => 4,
            BodyDeclarationType::WhileStatement => 5,
            BodyDeclarationType::ElseStatement => 6,
            BodyDeclarationType::FunctionDeclaration(..) => 7,
            BodyDeclarationType::ViewPort => 8,
            BodyDeclarationType::FontFace => 9,
            BodyDeclarationType::NestedProperties => 10,
            BodyDeclarationType::Keyframe(..) => 11,
            BodyDeclarationType::KeyframeSelector => 12,
            BodyDeclarationType::Media => 13,
            BodyDeclarationType::Supports => 14,
            BodyDeclarationType::Layer(..) => 15,
            BodyDeclarationType::PropertyAtRule(..) => 16,
            BodyDeclarationType::Document => 17,
            BodyDeclarationType::Container => 18,
            BodyDeclarationType::Page => 19,
            BodyDeclarationType::PageBoxMarginBox => 20,
            BodyDeclarationType::MixinContentDeclaration(..) => 21,
            BodyDeclarationType::MixinDeclaration(..) => 22,
            BodyDeclarationType::UnknownAtRule(..) => 23,
        }
    }
}

#[derive(Debug, PartialEq)]
pub struct RuleSet {
    pub selectors: NodeId,
}

#[derive(Debug, PartialEq)]
pub struct IfStatement {
    pub expression: NodeId,
    pub else_clause: NodeId,
}

#[derive(Debug, PartialEq)]
pub struct ForStatement {
    pub variable: NodeId,
}

#[derive(Debug, PartialEq)]
pub struct EachStatement {
    pub variables: NodeId,
}

#[derive(Debug, PartialEq)]
pub struct FunctionDeclaration {
    pub identifier: NodeId,
    pub parameters: NodeId,
}

#[derive(Debug, PartialEq)]
pub struct Keyframe {
    pub keyword: NodeId,
    pub identifier: NodeId,
}

#[derive(Debug, PartialEq)]
pub struct Layer {
    pub names: NodeId,
}

#[derive(Debug, PartialEq)]
pub struct PropertyAtRule {
    pub name: NodeId,
}

#[derive(Debug, PartialEq)]
pub struct MixinContentDeclaration {
    pub parameters: NodeId,
}

#[derive(Debug, PartialEq)]
pub struct MixinDeclaration {
    pub identifier: NodeId,
    pub parameters: NodeId,
    pub guard: NodeId,
}

#[derive(Debug, PartialEq)]
pub struct UnknownAtRule {
    pub at_rule_name: String,
}

#[derive(Debug, PartialEq)]
pub struct AbstractDeclaration {
    pub colon_position: usize,
    pub semicolon_position: usize,
    pub abstract_decl_type: AbstractDeclarationType,
}

#[derive(Debug, PartialEq)]
pub enum AbstractDeclarationType {
    Declaration(Declaration),
    VariableDeclaration(VariableDeclaration),
}

#[derive(Debug, PartialEq)]
pub struct Declaration {
    pub property: NodeId,
    pub expr: NodeId,
    pub nested_properties: Option<NodeId>,
    pub declaration_type: DeclarationType,
}

#[derive(Debug, PartialEq)]
pub enum DeclarationType {
    Declaration,
    CustomPropertyDeclaration(CustomPropertyDeclaration),
}

#[derive(Debug, PartialEq)]
pub struct VariableDeclaration {
    pub variable: NodeId,
    pub value: NodeId,
    pub needs_semicolon: bool,
}

#[derive(Debug, PartialEq)]
pub struct CustomPropertyDeclaration {
    pub property_set: NodeId,
}

#[derive(Debug, PartialEq)]
pub struct Property {
    pub identifier: NodeId,
}

impl Property {
    /// Whether the property's identifier is a custom property. Its identifier must be a
    /// node of `tree` of the identifier kind.
    pub fn is_custom_property(&self, tree: &CssNodeTree) -> (r: bool)
        requires
            tree.0.nodes().contains_key(self.identifier),
            tree.0.nodes()[self.identifier].2.node_type is Identifier,
        ensures
            r == tree.0.nodes()[self.identifier].2.node_type->Identifier_0.is_custom_property,
    {
        let node = tree.0.get(self.identifier).unwrap();
        match &node.value().node_type {
            CssNodeType::Identifier(i) => i.is_custom_property,
            _ => unreached(),
        }
    }
}

#[derive(Debug, PartialEq)]
pub struct Invocation {
    pub arguments: NodeId,
    pub invocation_type: InvocationType,
}

#[derive(Debug, PartialEq)]
pub enum InvocationType {
    Invocation,
    Function(Function),
}

#[derive(Debug, PartialEq)]
pub struct Function {
    pub identifier: NodeId,
}

#[derive(Debug, PartialEq)]
pub struct FunctionParameter {
    pub identifier: NodeId,
    pub default_value: NodeId,
}

#[derive(Debug, PartialEq)]
pub struct FunctionArgument {
    pub identifier: Option<NodeId>,
    pub value: NodeId,
}

#[derive(Debug, PartialEq)]
pub struct Use {
    pub identifier: NodeId,
    pub parameters: NodeId,
}

#[derive(Debug, PartialEq)]
pub struct ModuleConfiguration {
    pub identifier: NodeId,
    pub value: NodeId,
}

#[derive(Debug, PartialEq)]
pub struct Forward {
    pub identifier: NodeId,
    pub members: NodeId,
    pub parameters: NodeId,
}

#[derive(Debug, PartialEq)]
pub struct ForwardVisibility {
    pub identifier: NodeId,
}

#[derive(Debug, PartialEq, Eq, Structural)]
pub struct SupportsCondition {
    pub lef_parent: usize,
    pub rig_parent: usize,
}

#[derive(Debug, PartialEq)]
pub struct BinaryExpression {
    pub left: NodeId,
    pub right: NodeId,
    pub operator: NodeId,
}

#[derive(Debug, PartialEq)]
pub struct Term {
    pub operator: Option<NodeId>,
    pub expression: NodeId,
}

#[derive(Debug, PartialEq)]
pub struct AttributeSelector {
    pub namespace_prefix: Option<NodeId>,
    pub identifier: NodeId,
    pub operator: NodeId,
    pub value: Option<NodeId>,
}

#[derive(Debug, PartialEq, Eq, Structural)]
pub struct NumericValue {}

#[derive(Debug, PartialEq)]
pub struct NumericValueParsed {
    value: String,
    unit: Option<String>,
}

#[derive(Debug, PartialEq)]
pub struct Variable {
    pub module: NodeId,
}

#[derive(Debug, PartialEq)]
pub struct ExtendsReference {
    pub selectors: NodeId,
}

#[derive(Debug, PartialEq)]
pub struct MixinContentReference {
    pub arguments: NodeId,
}

#[derive(Debug, PartialEq)]
pub struct MixinReference {
    pub namespaces: NodeId,
    pub identifier: NodeId,
    pub arguments: NodeId,
    pub content: Option<NodeId>,
}

#[derive(Debug, PartialEq)]
pub struct ListEntry {
    pub key: NodeId,
    pub value: NodeId,
}

#[derive(Debug, PartialEq)]
pub struct LessGuard {
    pub conditions: NodeId,
}

#[derive(Debug, PartialEq)]
pub struct GuardCondition {
    pub variable: NodeId,
    pub is_negated: bool,
    pub is_equals: bool,
    pub is_greater: bool,
    pub is_equals_greater: bool,
    pub is_less: bool,
    pub is_equals_less: bool,
}

#[derive(Debug, PartialEq)]
pub struct Module {
    pub identifier: NodeId,
}

} // verus!
