//! Syntax nodes, the trees that hold them and the walks over those trees, the parse
//! errors nodes carry, the rules those errors violate and the markers that report them.
use vstd::prelude::*;
use crate::css_node_types::{
    ancestor, node_id_eq, tree_links_ok, tree_wf, AbstractDeclaration, AbstractDeclarationType,
    CssNodeType, Declaration, DeclarationType,
};
use ego_tree::{NodeId, Tree};
use crate::css_scanner::Token;
use crate::text::{
    cidx, collect_chars, eq_chars, has_prefix, has_prefix_chars, has_suffix, has_suffix_chars,
    str_slice,
};

verus! {

/// A rule that a parse error violates: its identifier and message.
#[derive(Debug, PartialEq)]
pub struct Rule {
    pub id: String,
    pub message: String,
}

impl Rule {
    pub fn new(id: &str, message: &str) -> (r: Self)
        ensures
            r.id@ == id@,
            r.message@ == message@,
    {
        Rule { id: id.to_owned(), message: message.to_owned() }
    }
}

#[derive(Debug, Clone, Copy, PartialEq, Eq, Structural)]
pub enum Level {
    Ignore,
    Warning,
    Error,
}

/// A reported problem: the error, its level, a message and the byte range it covers.
#[derive(Debug, Clone, PartialEq)]
pub struct Marker {
    pub error: ParseError,
    pub level: Level,
    pub message: String,
    pub offset: usize,
    pub length: usize,
}

pub struct ParseErrorCollector {
    pub entries: Vec<Marker>,
}

impl ParseErrorCollector {
    pub fn new() -> (r: Self)
        ensures
            r.entries@.len() == 0,
    {
        ParseErrorCollector { entries: Vec::new() }
    }
}

#[derive(Debug, PartialEq)]
pub struct CssIssueType {
    pub rule: Rule,
}

#[derive(Debug, Clone, Copy, PartialEq, Eq, Structural)]
pub enum ParseError {
    NumberExpected,
    ConditionExpected,
    RuleOrSelectorExpected,
    DotExpected,
    ColonExpected,
    SemiColonExpected,
    TermExpected,
    ExpressionExpected,
    OperatorExpected,
    IdentifierExpected,
    PercentageExpected,
    URIOrStringExpected,
    URIExpected,
    VariableNameExpected,
    VariableValueExpected,
    PropertyValueExpected,
    LeftCurlyExpected,
    RightCurlyExpected,
    LeftSquareBracketExpected,
    RightSquareBracketExpected,
    LeftParenthesisExpected,
    RightParenthesisExpected,
    CommaExpected,
    PageDirectiveOrDeclarationExpected,
    UnknownAtRule,
    UnknownKeyword,
    SelectorExpected,
    StringLiteralExpected,
    WhitespaceExpected,
    MediaQueryExpected,
    IdentifierOrWildcardExpected,
    WildcardExpected,
    IdentifierOrVariableExpected,
}

/// The identifier and the message of the rule an error violates.
pub open spec fn issue_of(e: ParseError) -> (Seq<char>, Seq<char>) {
    match e {
        ParseError::NumberExpected => ("css-numberexpected"@, "number expected"@),
        ParseError::ConditionExpected => ("css-conditionexpected"@, "condition expected"@),
        ParseError::RuleOrSelectorExpected => (
            "css-ruleorselectorexpected"@,
            "at-rule or selector expected"@,
        ),
        ParseError::DotExpected => ("css-dotexpected"@, "dot expected"@),
        ParseError::ColonExpected => ("css-colonexpected"@, "colon expected"@),
        ParseError::SemiColonExpected => ("css-semicolonexpected"@, "semi-colon expected"@),
        ParseError::TermExpected => ("css-termexpected"@, "term expected"@),
        ParseError::ExpressionExpected => ("css-expressionexpected"@, "expression expected"@),
        ParseError::OperatorExpected => ("css-operatorexpected"@, "operator expected"@),
        ParseError::IdentifierExpected => ("css-identifierexpected"@, "identifier expected"@),
        ParseError::PercentageExpected => ("css-percentageexpected"@, "percentage expected"@),
        ParseError::URIOrStringExpected => (
            "css-uriorstringexpected"@,
            "URI or string expected"@,
        ),
        ParseError::URIExpected => ("css-uriexpected"@, "URI expected"@),
        ParseError::VariableNameExpected => ("css-varnameexpected"@, "variable name expected"@),
        ParseError::VariableValueExpected => (
            "css-varvalueexpected"@,
            "variable value expected"@,
        ),
        ParseError::PropertyValueExpected => (
            "css-propertyvalueexpected"@,
            "property value expected"@,
        ),
        ParseError::LeftCurlyExpected => ("css-lcurlyexpected"@, "{{ expected"@),
        ParseError::RightCurlyExpected => ("css-rcurlyexpected"@, "}} expected"@),
        ParseError::LeftSquareBracketExpected => ("css-lbracketexpected"@, "[ expected"@),
        ParseError::RightSquareBracketExpected => ("css-rbracketexpected"@, "] expected"@),
        ParseError::LeftParenthesisExpected => ("css-lparentexpected"@, "( expected"@),
        ParseError::RightParenthesisExpected => ("css-rparentexpected"@, ") expected"@),
        ParseError::CommaExpected => ("css-commaexpected"@, "comma expected"@),
        ParseError::PageDirectiveOrDeclarationExpected => (
            "css-pagedirordeclexpected"@,
            "page directive or declaration expected"@,
        ),
        ParseError::UnknownAtRule => ("css-unknownatrule"@, "unknown at-rule"@),
        ParseError::UnknownKeyword => ("css-unknownkeyword"@, "unknown keyword"@),
        ParseError::SelectorExpected => ("css-selectorexpected"@, "selector expected"@),
        ParseError::StringLiteralExpected => (
            "css-stringliteralexpected"@,
            "string literal expected"@,
        ),
        ParseError::WhitespaceExpected => ("css-whitespaceexpected"@, "whitespace expected"@),
        ParseError::MediaQueryExpected => ("css-mediaqueryexpected"@, "media query expected"@),
        ParseError::IdentifierOrWildcardExpected => (
            "css-idorwildcardexpected"@,
            "identifier or wildcard expected"@,
        ),
        ParseError::WildcardExpected => ("css-wildcardexpected"@, "wildcard expected"@),
        ParseError::IdentifierOrVariableExpected => (
            "css-idorvarexpected"@,
            "identifier or variable expected"@,
        ),
    }
}

/// The position of an error among the kinds of errors.
pub open spec fn error_index(e: ParseError) -> int {
    match e {
        ParseError::NumberExpected => 0,
        ParseError::ConditionExpected => 1,
        ParseError::RuleOrSelectorExpected => 2,
        ParseError::DotExpected => 3,
        ParseError::ColonExpected => 4,
        ParseError::SemiColonExpected => 5,
        ParseError::TermExpected => 6,
        ParseError::ExpressionExpected => 7,
        ParseError::OperatorExpected => 8,
        ParseError::IdentifierExpected => 9,
        ParseError::PercentageExpected => 10,
        ParseError::URIOrStringExpected => 11,
        ParseError::URIExpected => 12,
        ParseError::VariableNameExpected => 13,
        ParseError::VariableValueExpected => 14,
        ParseError::PropertyValueExpected => 15,
        ParseError::LeftCurlyExpected => 16,
        ParseError::RightCurlyExpected => 17,
        ParseError::LeftSquareBracketExpected => 18,
        ParseError::RightSquareBracketExpected => 19,
        ParseError::LeftParenthesisExpected => 20,
        ParseError::RightParenthesisExpected => 21,
        ParseError::CommaExpected => 22,
        ParseError::PageDirectiveOrDeclarationExpected => 23,
        ParseError::UnknownAtRule => 24,
        ParseError::UnknownKeyword => 25,
        ParseError::SelectorExpected => 26,
        ParseError::StringLiteralExpected => 27,
        ParseError::WhitespaceExpected => 28,
        ParseError::MediaQueryExpected => 29,
        ParseError::IdentifierOrWildcardExpected => 30,
        ParseError::WildcardExpected => 31,
        ParseError::IdentifierOrVariableExpected => 32,
    }
}

/// The error a rule id belongs to, by its length and two of its characters.
pub open spec fn id_index(id: Seq<char>) -> int {
    if id.len() == 18 && id[4] == 'n' && id[6] == 'm' {
        0
    } else if id.len() == 21 && id[4] == 'c' && id[6] == 'n' {
        1
    } else if id.len() == 26 && id[4] == 'r' && id[6] == 'l' {
        2
    } else if id.len() == 15 && id[4] == 'd' && id[6] == 't' {
        3
    } else if id.len() == 17 && id[4] == 'c' && id[6] == 'l' {
        4
    } else if id.len() == 21 && id[4] == 's' && id[6] == 'm' {
        5
    } else if id.len() == 16 && id[4] == 't' && id[6] == 'r' {
        6
    } else if id.len() == 22 && id[4] == 'e' && id[6] == 'p' {
        7
    } else if id.len() == 20 && id[4] == 'o' && id[6] == 'e' {
        8
    } else if id.len() == 22 && id[4] == 'i' && id[6] == 'e' {
        9
    } else if id.len() == 22 && id[4] == 'p' && id[6] == 'r' {
        10
    } else if id.len() == 23 && id[4] == 'u' && id[6] == 'i' {
        11
    } else if id.len() == 15 && id[4] == 'u' && id[6] == 'i' {
        12
    } else if id.len() == 19 && id[4] == 'v' && id[6] == 'r' {
        13
    } else if id.len() == 20 && id[4] == 'v' && id[6] == 'r' {
        14
    } else if id.len() == 25 && id[4] == 'p' && id[6] == 'o' {
        15
    } else if id.len() == 18 && id[4] == 'l' && id[6] == 'u' {
        16
    } else if id.len() == 18 && id[4] == 'r' && id[6] == 'u' {
        17
    } else if id.len() == 20 && id[4] == 'l' && id[6] == 'r' {
        18
    } else if id.len() == 20 && id[4] == 'r' && id[6] == 'r' {
        19
    } else if id.len() == 19 && id[4] == 'l' && id[6] == 'a' {
        20
    } else if id.len() == 19 && id[4] == 'r' && id[6] == 'a' {
        21
    } else if id.len() == 17 && id[4] == 'c' && id[6] == 'm' {
        22
    } else if id.len() == 25 && id[4] == 'p' && id[6] == 'g' {
        23
    } else if id.len() == 17 && id[4] == 'u' && id[6] == 'k' {
        24
    } else if id.len() == 18 && id[4] == 'u' && id[6] == 'k' {
        25
    } else if id.len() == 20 && id[4] == 's' && id[6] == 'l' {
        26
    } else if id.len() == 25 && id[4] == 's' && id[6] == 'r' {
        27
    } else if id.len() == 22 && id[4] == 'w' && id[6] == 'i' {
        28
    } else if id.len() == 22 && id[4] == 'm' && id[6] == 'd' {
        29
    } else if id.len() == 24 && id[4] == 'i' && id[6] == 'o' {
        30
    } else if id.len() == 20 && id[4] == 'w' && id[6] == 'l' {
        31
    } else if id.len() == 19 && id[4] == 'i' && id[6] == 'o' {
        32
    } else {
        -1
    }
}

/// Every rule's id starts with `css-` and says more after it, its message is not
/// empty, and no two errors share a rule id.
pub proof fn lemma_issue_ids(a: ParseError, b: ParseError)
    ensures
        issue_of(a).0.len() > 4,
        issue_of(a).0.take(4) == seq!['c', 's', 's', '-'],
        issue_of(a).1.len() > 0,
        a != b ==> issue_of(a).0 != issue_of(b).0,
{
    reveal_strlit("css-numberexpected");
    reveal_strlit("number expected");
    reveal_strlit("css-conditionexpected");
    reveal_strlit("condition expected");
    reveal_strlit("css-ruleorselectorexpected");
    reveal_strlit("at-rule or selector expected");
    reveal_strlit("css-dotexpected");
    reveal_strlit("dot expected");
    reveal_strlit("css-colonexpected");
    reveal_strlit("colon expected");
    reveal_strlit("css-semicolonexpected");
    reveal_strlit("semi-colon expected");
    reveal_strlit("css-termexpected");
    reveal_strlit("term expected");
    reveal_strlit("css-expressionexpected");
    reveal_strlit("expression expected");
    reveal_strlit("css-operatorexpected");
    reveal_strlit("operator expected");
    reveal_strlit("css-identifierexpected");
    reveal_strlit("identifier expected");
    reveal_strlit("css-percentageexpected");
    reveal_strlit("percentage expected");
    reveal_strlit("css-uriorstringexpected");
    reveal_strlit("URI or string expected");
    reveal_strlit("css-uriexpected");
    reveal_strlit("URI expected");
    reveal_strlit("css-varnameexpected");
    reveal_strlit("variable name expected");
    reveal_strlit("css-varvalueexpected");
    reveal_strlit("variable value expected");
    reveal_strlit("css-propertyvalueexpected");
    reveal_strlit("property value expected");
    reveal_strlit("css-lcurlyexpected");
    reveal_strlit("{{ expected");
    reveal_strlit("css-rcurlyexpected");
    reveal_strlit("}} expected");
    reveal_strlit("css-lbracketexpected");
    reveal_strlit("[ expected");
    reveal_strlit("css-rbracketexpected");
    reveal_strlit("] expected");
    reveal_strlit("css-lparentexpected");
    reveal_strlit("( expected");
    reveal_strlit("css-rparentexpected");
    reveal_strlit(") expected");
    reveal_strlit("css-commaexpected");
    reveal_strlit("comma expected");
    reveal_strlit("css-pagedirordeclexpected");
    reveal_strlit("page directive or declaration expected");
    reveal_strlit("css-unknownatrule");
    reveal_strlit("unknown at-rule");
    reveal_strlit("css-unknownkeyword");
    reveal_strlit("unknown keyword");
    reveal_strlit("css-selectorexpected");
    reveal_strlit("selector expected");
    reveal_strlit("css-stringliteralexpected");
    reveal_strlit("string literal expected");
    reveal_strlit("css-whitespaceexpected");
    reveal_strlit("whitespace expected");
    reveal_strlit("css-mediaqueryexpected");
    reveal_strlit("media query expected");
    reveal_strlit("css-idorwildcardexpected");
    reveal_strlit("identifier or wildcard expected");
    reveal_strlit("css-wildcardexpected");
    reveal_strlit("wildcard expected");
    reveal_strlit("css-idorvarexpected");
    reveal_strlit("identifier or variable expected");
    assert(id_index(issue_of(a).0) == error_index(a));
    assert(id_index(issue_of(b).0) == error_index(b));
    if error_index(a) == error_index(b) {
        assert(a == b);
    }
}

impl ParseError {
    /// The rule this error violates.
    pub fn issue(&self) -> (r: CssIssueType)
        ensures
            r.rule.id@ == issue_of(*self).0,
            r.rule.message@ == issue_of(*self).1,
    {
        let rule = match self {
            ParseError::NumberExpected => Rule::new("css-numberexpected", "number expected"),
            ParseError::ConditionExpected => Rule::new(
                "css-conditionexpected",
                "condition expected",
            ),
            ParseError::RuleOrSelectorExpected => Rule::new(
                "css-ruleorselectorexpected",
                "at-rule or selector expected",
            ),
            ParseError::DotExpected => Rule::new("css-dotexpected", "dot expected"),
            ParseError::ColonExpected => Rule::new("css-colonexpected", "colon expected"),
            ParseError::SemiColonExpected => Rule::new(
                "css-semicolonexpected",
                "semi-colon expected",
            ),
            ParseError::TermExpected => Rule::new("css-termexpected", "term expected"),
            ParseError::ExpressionExpected => Rule::new(
                "css-expressionexpected",
                "expression expected",
            ),
            ParseError::OperatorExpected => Rule::new("css-operatorexpected", "operator expected"),
            ParseError::IdentifierExpected => Rule::new(
                "css-identifierexpected",
                "identifier expected",
            ),
            ParseError::PercentageExpected => Rule::new(
                "css-percentageexpected",
                "percentage expected",
            ),
            ParseError::URIOrStringExpected => Rule::new(
                "css-uriorstringexpected",
                "URI or string expected",
            ),
            ParseError::URIExpected => Rule::new("css-uriexpected", "URI expected"),
            ParseError::VariableNameExpected => Rule::new(
                "css-varnameexpected",
                "variable name expected",
            ),
            ParseError::VariableValueExpected => Rule::new(
                "css-varvalueexpected",
                "variable value expected",
            ),
            ParseError::PropertyValueExpected => Rule::new(
                "css-propertyvalueexpected",
                "property value expected",
            ),
            ParseError::LeftCurlyExpected => Rule::new("css-lcurlyexpected", "{{ expected"),
            ParseError::RightCurlyExpected => Rule::new("css-rcurlyexpected", "}} expected"),
            ParseError::LeftSquareBracketExpected => Rule::new(
                "css-lbracketexpected",
                "[ expected",
            ),
            ParseError::RightSquareBracketExpected => Rule::new(
                "css-rbracketexpected",
                "] expected",
            ),
            ParseError::LeftParenthesisExpected => Rule::new("css-lparentexpected", "( expected"),
            ParseError::RightParenthesisExpected => Rule::new("css-rparentexpected", ") expected"),
            ParseError::CommaExpected => Rule::new("css-commaexpected", "comma expected"),
            ParseError::PageDirectiveOrDeclarationExpected => Rule::new(
                "css-pagedirordeclexpected",
                "page directive or declaration expected",
            ),
            ParseError::UnknownAtRule => Rule::new("css-unknownatrule", "unknown at-rule"),
            ParseError::UnknownKeyword => Rule::new("css-unknownkeyword", "unknown keyword"),
            ParseError::SelectorExpected => Rule::new("css-selectorexpected", "selector expected"),
            ParseError::StringLiteralExpected => Rule::new(
                "css-stringliteralexpected",
                "string literal expected",
            ),
            ParseError::WhitespaceExpected => Rule::new(
                "css-whitespaceexpected",
                "whitespace expected",
            ),
            ParseError::MediaQueryExpected => Rule::new(
                "css-mediaqueryexpected",
                "media query expected",
            ),
            ParseError::IdentifierOrWildcardExpected => Rule::new(
                "css-idorwildcardexpected",
                "identifier or wildcard expected",
            ),
            ParseError::WildcardExpected => Rule::new("css-wildcardexpected", "wildcard expected"),
            ParseError::IdentifierOrVariableExpected => Rule::new(
                "css-idorvarexpected",
                "identifier or variable expected",
            ),
        };
        CssIssueType { rule }
    }
}

/// A provider of source text for syntax nodes.
pub trait ITextProvider {
    /// The text it provides.
    spec fn provided(&self) -> Seq<char>;

    /// The text between the byte offsets `offset` and `length` (the second offset is the
    /// end of the range, not its length).
    fn get_text(&self, offset: usize, length: usize) -> (r: &str)
        requires
            cidx(self.provided(), offset as int) is Some,
            cidx(self.provided(), length as int) is Some,
            offset <= length,
        ensures
            r@ == self.provided().subrange(
                cidx(self.provided(), offset as int)->0,
                cidx(self.provided(), length as int)->0,
            ),
    ;
}

/// Data attached to syntax nodes.
pub trait DataT {
    fn noop(&self);
}

/// A copy of a marker, field by field.
fn copy_marker(m: &Marker) -> (r: Marker)
    ensures
        r == *m,
{
    Marker {
        error: m.error,
        level: m.level,
        message: m.message.clone(),
        offset: m.offset,
        length: m.length,
    }
}

/// A node of the syntax tree: the byte range it covers, the problems found in it and
/// its kind.
pub struct CssNode {
    pub offset: usize,
    pub length: usize,
    pub issues: Vec<Marker>,
    pub node_type: CssNodeType,
}

impl CssNode {
    pub fn new(offset: usize, length: usize, node_type: CssNodeType) -> (r: Self)
        ensures
            r.offset == offset,
            r.length == length,
            r.node_type == node_type,
            r.issues@.len() == 0,
    {
        CssNode { offset, length, issues: Vec::new(), node_type }
    }

    /// The byte offset just past the node.
    pub fn end(&self) -> (r: usize)
        requires
            self.offset + self.length <= usize::MAX,
        ensures
            r == self.offset + self.length,
    {
        self.offset + self.length
    }

    /// Appends the node's issues to `results`.
    pub fn collect_issues(&self, results: &mut Vec<Marker>)
        ensures
            final(results)@ == old(results)@ + self.issues@,
    {
        let mut i: usize = 0;
        while i < self.issues.len()
            invariant
                i <= self.issues.len(),
                results@ == old(results)@ + self.issues@.take(i as int),
            decreases self.issues.len() - i,
        {
            let m = copy_marker(&self.issues[i]);
            results.push(m);
            assert(self.issues@.take(i + 1) =~= self.issues@.take(i as int).push(self.issues@[i as int]));
            i += 1;
        }
        assert(self.issues@.take(self.issues.len() as int) =~= self.issues@);
    }

    pub fn add_issue(&mut self, issue: Marker)
        ensures
            final(self).issues@ == old(self).issues@.push(issue),
            final(self).offset == old(self).offset,
            final(self).length == old(self).length,
            final(self).node_type == old(self).node_type,
    {
        self.issues.push(issue);
    }

    /// Whether one of the node's issues is the error `error`.
    pub fn has_issue(&self, error: ParseError) -> (r: bool)
        ensures
            r == exists|i: int| 0 <= i < self.issues@.len() && (#[trigger] self.issues@[i]).error == error,
    {
        let mut i: usize = 0;
        while i < self.issues.len()
            invariant
                i <= self.issues.len(),
                forall|j: int| 0 <= j < i ==> (#[trigger] self.issues@[j]).error != error,
            decreases self.issues.len() - i,
        {
            if self.issues[i].error == error {
                return true;
            }
            i += 1;
        }
        false
    }

    /// Widens the node's range so that it also covers `node`: afterwards the node
    /// encloses `node`. A node whose offset or length is `usize::MAX` (not yet placed)
    /// takes `node`'s offset or end. Moving the start back does not move the end, so the
    /// new range need not cover the old one.
    pub fn update_offset_and_length(&mut self, node: &CssNode)
        requires
            old(self).offset + old(self).length <= usize::MAX,
            node.offset + node.length <= usize::MAX,
        ensures
            final(self).offset == (if node.offset < old(self).offset || old(self).offset == usize::MAX {
                node.offset
            } else {
                old(self).offset
            }),
            final(self).length == (if node.offset + node.length > final(self).offset + old(self).length
                || old(self).length == usize::MAX {
                (node.offset + node.length - final(self).offset) as usize
            } else {
                old(self).length
            }),
            final(self).offset <= node.offset,
            final(self).offset + final(self).length >= node.offset + node.length,
            final(self).issues@ == old(self).issues@,
            final(self).node_type == old(self).node_type,
    {
        if node.offset < self.offset || self.offset == usize::MAX {
            self.offset = node.offset;
        }
        if node.end() > self.end() || self.length == usize::MAX {
            self.length = node.end() - self.offset;
        }
    }

    /// Whether the node's range contains that of `candidate`.
    pub fn encloses(&self, candidate: &CssNode) -> (r: bool)
        ensures
            r == (self.offset <= candidate.offset && self.offset + self.length >= candidate.offset
                + candidate.length),
    {
        self.offset <= candidate.offset && (self.offset as u128) + (self.length as u128) >= (
        candidate.offset as u128) + (candidate.length as u128)
    }

    /// Whether problems were found in the node.
    pub fn is_erroneous(&self) -> (r: bool)
        ensures
            r == (self.issues@.len() > 0),
    {
        !self.issues.is_empty()
    }
}

#[derive(Debug)]
pub struct TextFromStringProvider<'a> {
    inner: &'a str,
}

impl<'a> TextFromStringProvider<'a> {
    pub fn new(inner: &'a str) -> (r: Self)
        ensures
            r.provided() == inner@,
    {
        TextFromStringProvider { inner }
    }
}

impl<'a> ITextProvider for TextFromStringProvider<'a> {
    closed spec fn provided(&self) -> Seq<char> {
        self.inner@
    }

    fn get_text(&self, offset: usize, length: usize) -> (r: &str) {
        str_slice(self.inner, offset, length)
    }
}

// ---------------------------------------------------------------------------
// Trees of syntax nodes

/// What a tree of syntax nodes holds: the identifier of its root, and for each node its
/// parent, its children in order and its value.
pub uninterp spec fn css_tree(t: Tree<CssNode>) -> (NodeId, Map<NodeId, (Option<NodeId>, Seq<NodeId>, CssNode)>);

/// `Tree::new`: a tree of the one node `root`, which has no parent and no children.
#[verifier::external_body]
fn css_tree_new(root: CssNode) -> (t: Tree<CssNode>)
    ensures
        css_tree(t).1 == map![css_tree(t).0 => (None::<NodeId>, Seq::<NodeId>::empty(), root)],
{
    Tree::new(root)
}

/// `Tree::root`: the identifier of the tree's root.
#[verifier::external_body]
fn css_tree_root(t: &Tree<CssNode>) -> (r: NodeId)
    ensures
        r == css_tree(*t).0,
{
    t.root().id()
}

/// `Tree::get` and `NodeRef::value`: the value of a node, `None` for an identifier of
/// no node of the tree.
#[verifier::external_body]
pub(crate) fn css_tree_value<'a>(t: &'a Tree<CssNode>, id: NodeId) -> (r: Option<&'a CssNode>)
    ensures
        r is Some <==> css_tree(*t).1.contains_key(id),
        r matches Some(v) ==> *v == css_tree(*t).1[id].2,
{
    match t.get(id) {
        Some(n) => Some(n.value()),
        None => None,
    }
}

/// `NodeRef::parent`: the parent of a node of the tree.
#[verifier::external_body]
fn css_tree_parent(t: &Tree<CssNode>, id: NodeId) -> (r: Option<NodeId>)
    requires
        css_tree(*t).1.contains_key(id),
    ensures
        r == css_tree(*t).1[id].0,
{
    match t.get(id).unwrap().parent() {
        Some(p) => Some(p.id()),
        None => None,
    }
}

/// `NodeRef::children`: the children of a node of the tree, in order.
#[verifier::external_body]
fn css_tree_children(t: &Tree<CssNode>, id: NodeId) -> (r: Vec<NodeId>)
    requires
        css_tree(*t).1.contains_key(id),
    ensures
        r@ == css_tree(*t).1[id].1,
{
    t.get(id).unwrap().children().map(|c| c.id()).collect()
}

/// The identifier `Tree::orphan` gives the next node of a tree whose nodes have the
/// identifiers `dom`: it numbers nodes in the order they are made.
pub uninterp spec fn orphan_id(dom: Set<NodeId>) -> NodeId;

/// `Tree::orphan`: adds `value` in a new node with no parent and no children, under the
/// identifier that follows those of the tree's nodes.
#[verifier::external_body]
pub(crate) fn css_tree_orphan(t: &mut Tree<CssNode>, value: CssNode) -> (r: NodeId)
    ensures
        !css_tree(*old(t)).1.contains_key(r),
        r == orphan_id(css_tree(*old(t)).1.dom()),
        css_tree(*final(t)).0 == css_tree(*old(t)).0,
        css_tree(*final(t)).1 == css_tree(*old(t)).1.insert(
            r,
            (None::<NodeId>, Seq::<NodeId>::empty(), value),
        ),
{
    t.orphan(value).id()
}

/// `Tree::get_mut` and `NodeMut::append_id`: makes the node `child`, which has no
/// parent, the last child of `parent`; `false`, with the tree unchanged, when `parent`
/// is no node of the tree.
#[verifier::external_body]
pub(crate) fn css_tree_append_id(t: &mut Tree<CssNode>, parent: NodeId, child: NodeId) -> (r: bool)
    requires
        css_tree(*old(t)).1.contains_key(child),
        css_tree(*old(t)).1[child].0 is None,
        child != parent,
    ensures
        r == css_tree(*old(t)).1.contains_key(parent),
        css_tree(*final(t)).0 == css_tree(*old(t)).0,
        !r ==> css_tree(*final(t)).1 == css_tree(*old(t)).1,
        r ==> css_tree(*final(t)).1 == css_tree(*old(t)).1.insert(
            child,
            (Some(parent), css_tree(*old(t)).1[child].1, css_tree(*old(t)).1[child].2),
        ).insert(
            parent,
            (
                css_tree(*old(t)).1[parent].0,
                css_tree(*old(t)).1[parent].1.push(child),
                css_tree(*old(t)).1[parent].2,
            ),
        ),
{
    match t.get_mut(parent) {
        Some(mut p) => {
            p.append_id(child);
            true
        },
        None => false,
    }
}

/// `Tree::get_mut`, `NodeMut::value` and `std::mem::replace`: puts `value` in the node
/// `id` and gives back the value it held.
#[verifier::external_body]
pub(crate) fn css_tree_replace(t: &mut Tree<CssNode>, id: NodeId, value: CssNode) -> (r: CssNode)
    requires
        css_tree(*old(t)).1.contains_key(id),
    ensures
        r == css_tree(*old(t)).1[id].2,
        css_tree(*final(t)).0 == css_tree(*old(t)).0,
        css_tree(*final(t)).1 == css_tree(*old(t)).1.insert(
            id,
            (css_tree(*old(t)).1[id].0, css_tree(*old(t)).1[id].1, value),
        ),
{
    std::mem::replace(t.get_mut(id).unwrap().value(), value)
}

/// A node of a tree of syntax nodes: the tree and the node's identifier.
#[derive(Clone, Copy)]
pub struct CssNodeRef<'a> {
    pub tree: &'a Tree<CssNode>,
    pub id: NodeId,
}

impl<'a> CssNodeRef<'a> {
    /// The shape of the tree.
    pub open spec fn nodes(self) -> Map<NodeId, (Option<NodeId>, Seq<NodeId>, CssNode)> {
        css_tree(*self.tree).1
    }

    /// The node is a node of a well-formed tree.
    pub open spec fn valid(self) -> bool {
        tree_wf(self.nodes()) && self.nodes().contains_key(self.id)
    }

    /// The node's value.
    pub open spec fn node(self) -> CssNode {
        self.nodes()[self.id].2
    }

    /// The node's value.
    pub fn value(&self) -> (r: &'a CssNode)
        requires
            self.nodes().contains_key(self.id),
        ensures
            *r == self.node(),
    {
        css_tree_value(self.tree, self.id).unwrap()
    }

    /// The node's children, in order.
    pub fn children(&self) -> (r: Vec<NodeId>)
        requires
            self.nodes().contains_key(self.id),
        ensures
            r@ == self.nodes()[self.id].1,
    {
        css_tree_children(self.tree, self.id)
    }
}

/// A visitor of the nodes of a tree. Its view is the state that visits change; what a
/// visit makes of that state, and what it answers, depend on the state and the node alone.
pub trait IVisitor: View + Sized {
    /// The state after visiting `node` from state `v`.
    spec fn after_visit(v: Self::V, node: CssNodeRef) -> Self::V;

    /// Whether the visit of `node` from state `v` asks for its children to be visited too.
    spec fn visit_answer(v: Self::V, node: CssNodeRef) -> bool;

    /// Visits `node`; the answer says whether to visit its children too.
    fn visit_node(&mut self, node: CssNodeRef) -> (r: bool)
        requires
            node.nodes().contains_key(node.id),
        ensures
            final(self)@ == Self::after_visit(old(self)@, node),
            r == Self::visit_answer(old(self)@, node),
    ;
}

impl View for ParseErrorCollector {
    type V = Seq<Marker>;

    /// The issues collected so far.
    open spec fn view(&self) -> Seq<Marker> {
        self.entries@
    }
}

impl IVisitor for ParseErrorCollector {
    open spec fn after_visit(v: Seq<Marker>, node: CssNodeRef) -> Seq<Marker> {
        v + node.node().issues@
    }

    open spec fn visit_answer(v: Seq<Marker>, node: CssNodeRef) -> bool {
        true
    }

    /// Collects the issues of an erroneous node, and goes on.
    fn visit_node(&mut self, node: CssNodeRef) -> (r: bool)
        ensures
            r,
            final(self).entries@ == old(self).entries@ + node.node().issues@,
    {
        let v = node.value();
        if v.is_erroneous() {
            v.collect_issues(&mut self.entries);
        } else {
            assert(old(self).entries@ + v.issues@ =~= old(self).entries@);
        }
        true
    }
}

/// The first ancestor of `id` (itself excluded) whose value satisfies `p`, found `k`
/// steps up: every node below it on the way fails `p`.
pub open spec fn first_ancestor_at(
    m: Map<NodeId, (Option<NodeId>, Seq<NodeId>, CssNode)>,
    id: NodeId,
    k: nat,
    p: spec_fn(CssNode) -> bool,
) -> bool {
    &&& k >= 1
    &&& forall|j: nat|
        1 <= j < k ==> (#[trigger] ancestor(m, id, j) matches Some(a) && m.contains_key(a) && !p(
            m[a].2,
        ))
}

/// The result of walking up from `id` to the first ancestor whose value satisfies `p`:
/// `Some` of that ancestor, or `None` when the walk runs out of parents first.
pub open spec fn first_ancestor_is(
    m: Map<NodeId, (Option<NodeId>, Seq<NodeId>, CssNode)>,
    id: NodeId,
    p: spec_fn(CssNode) -> bool,
    r: Option<NodeId>,
) -> bool {
    exists|k: nat|
        #![trigger ancestor(m, id, k)]
        first_ancestor_at(m, id, k, p) && ancestor(m, id, k) == r && match r {
            Some(a) => m.contains_key(a) && p(m[a].2),
            None => true,
        }
}

/// Walks up from `node` to the first ancestor whose value satisfies `p`.
fn walk_up(
    node: CssNodeRef,
    Ghost(p): Ghost<spec_fn(CssNode) -> bool>,
    check: &impl Fn(&CssNode) -> bool,
) -> (r: Option<NodeId>)
    requires
        node.valid(),
        forall|v: CssNode| #[trigger] check.requires((&v,)),
        forall|v: CssNode, b: bool| check.ensures((&v,), b) ==> b == p(v),
    ensures
        first_ancestor_is(node.nodes(), node.id, p, r),
{
    let ghost m = node.nodes();
    let ghost (depth, bound) = choose|depth: Map<NodeId, nat>, bound: nat| tree_links_ok(m, depth, bound);
    let mut result = css_tree_parent(node.tree, node.id);
    let ghost mut k: nat = 1;
    proof {
        assert(ancestor(m, node.id, 0) == Some(node.id));
        assert(m[node.id].0 == m[node.id].0);
    }
    loop
        invariant
            m == node.nodes(),
            tree_links_ok(m, depth, bound),
            m.contains_key(node.id),
            k >= 1,
            result == ancestor(m, node.id, k),
            first_ancestor_at(m, node.id, k, p),
            result matches Some(a) ==> m.contains_key(a),
            forall|v: CssNode| #[trigger] check.requires((&v,)),
            forall|v: CssNode, b: bool| check.ensures((&v,), b) ==> b == p(v),
        ensures
            first_ancestor_is(m, node.id, p, result),
        decreases (match result {
            Some(a) => depth[a] + 1,
            None => 0,
        }),
    {
        match result {
            None => {
                break;
            },
            Some(a) => {
                let v = css_tree_value(node.tree, a).unwrap();
                if check(v) {
                    break;
                }
                let next = css_tree_parent(node.tree, a);
                proof {
                    assert(ancestor(m, node.id, k + 1) == next);
                    assert forall|j: nat| 1 <= j < k + 1 implies (#[trigger] ancestor(
                        m,
                        node.id,
                        j,
                    ) matches Some(x) && m.contains_key(x) && !p(m[x].2)) by {
                        if j == k {
                        }
                    }
                    assert(m[a].0 == next);
                }
                result = next;
                proof {
                    k = k + 1;
                }
            },
        }
    }
    result
}

/// The first ancestor that satisfies a predicate is one node, or none, whichever way
/// it is found.
pub proof fn lemma_first_ancestor_unique(
    m: Map<NodeId, (Option<NodeId>, Seq<NodeId>, CssNode)>,
    id: NodeId,
    p: spec_fn(CssNode) -> bool,
    r1: Option<NodeId>,
    r2: Option<NodeId>,
)
    requires
        first_ancestor_is(m, id, p, r1),
        first_ancestor_is(m, id, p, r2),
    ensures
        r1 == r2,
{
    let k1 = choose|k: nat|
        #![trigger ancestor(m, id, k)]
        first_ancestor_at(m, id, k, p) && ancestor(m, id, k) == r1 && match r1 {
            Some(a) => m.contains_key(a) && p(m[a].2),
            None => true,
        };
    let k2 = choose|k: nat|
        #![trigger ancestor(m, id, k)]
        first_ancestor_at(m, id, k, p) && ancestor(m, id, k) == r2 && match r2 {
            Some(a) => m.contains_key(a) && p(m[a].2),
            None => true,
        };
    if k1 < k2 {
        assert(ancestor(m, id, k1) matches Some(a) && m.contains_key(a) && !p(m[a].2));
    } else if k2 < k1 {
        assert(ancestor(m, id, k2) matches Some(a) && m.contains_key(a) && !p(m[a].2));
    }
}

/// The identifier of the node a reference names, if any.
pub open spec fn ref_id(r: Option<CssNodeRef>) -> Option<NodeId> {
    match r {
        Some(x) => Some(x.id),
        None => None,
    }
}

/// A node's value is not a node list.
pub open spec fn not_nodelist(v: CssNode) -> bool {
    !(v.node_type is Nodelist)
}

/// The first ancestor of `node` (itself excluded) that is not a node list.
pub fn get_real_parent<'a>(node: CssNodeRef<'a>) -> (r: Option<CssNodeRef<'a>>)
    requires
        node.valid(),
    ensures
        first_ancestor_is(node.nodes(), node.id, |v: CssNode| not_nodelist(v), ref_id(r)),
        r matches Some(x) ==> x.tree == node.tree,
{
    let check = |v: &CssNode| -> (b: bool)
        ensures
            b == not_nodelist(*v),
        { !matches!(v.node_type, CssNodeType::Nodelist) };
    match walk_up(node, Ghost(|v: CssNode| not_nodelist(v)), &check) {
        Some(id) => Some(CssNodeRef { tree: node.tree, id }),
        None => None,
    }
}

/// The first ancestor of `node` (itself excluded) of the kind of `node_type`.
pub fn first_ancestor_of_type<'a>(node: CssNodeRef<'a>, node_type: CssNodeType) -> (r: Option<
    CssNodeRef<'a>,
>)
    requires
        node.valid(),
    ensures
        first_ancestor_is(
            node.nodes(),
            node.id,
            |v: CssNode| v.node_type.same_kind(node_type),
            ref_id(r),
        ),
        r matches Some(x) ==> x.tree == node.tree,
{
    let nt = &node_type;
    let check = |v: &CssNode| -> (b: bool)
        ensures
            b == v.node_type.same_kind(*nt),
        { v.node_type.same_node_type(nt) };
    match walk_up(node, Ghost(|v: CssNode| v.node_type.same_kind(node_type)), &check) {
        Some(id) => Some(CssNodeRef { tree: node.tree, id }),
        None => None,
    }
}

/// Whether `t` is of the kind of one of `types`.
pub open spec fn of_a_kind(types: Seq<CssNodeType>, t: CssNodeType) -> bool {
    exists|i: int| 0 <= i < types.len() && (#[trigger] types[i]).same_kind(t)
}

fn any_same_kind(types: &Vec<CssNodeType>, t: &CssNodeType) -> (r: bool)
    ensures
        r == of_a_kind(types@, *t),
{
    let mut i: usize = 0;
    while i < types.len()
        invariant
            i <= types@.len(),
            forall|j: int| 0 <= j < i ==> !(#[trigger] types@[j]).same_kind(*t),
        decreases types@.len() - i,
    {
        if types[i].same_node_type(t) {
            return true;
        }
        i += 1;
    }
    false
}

/// The first ancestor of `node` (itself excluded) of the kind of one of `node_types`.
pub fn first_ancestor_of_a_type<'a>(node: CssNodeRef<'a>, node_types: Vec<CssNodeType>) -> (r:
    Option<CssNodeRef<'a>>)
    requires
        node.valid(),
    ensures
        first_ancestor_is(
            node.nodes(),
            node.id,
            |v: CssNode| of_a_kind(node_types@, v.node_type),
            ref_id(r),
        ),
        r matches Some(x) ==> x.tree == node.tree,
{
    let check = |v: &CssNode| -> (b: bool)
        ensures
            b == of_a_kind(node_types@, v.node_type),
        { any_same_kind(&node_types, &v.node_type) };
    match walk_up(node, Ghost(|v: CssNode| of_a_kind(node_types@, v.node_type)), &check) {
        Some(id) => Some(CssNodeRef { tree: node.tree, id }),
        None => None,
    }
}

/// The node type of a plain declaration (its links are placeholders).
pub open spec fn plain_declaration(id: NodeId) -> CssNodeType {
    CssNodeType::_AbstractDeclaration(
        AbstractDeclaration {
            colon_position: 0,
            semicolon_position: 0,
            abstract_decl_type: AbstractDeclarationType::Declaration(
                Declaration {
                    property: id,
                    expr: id,
                    nested_properties: None,
                    declaration_type: DeclarationType::Declaration,
                },
            ),
        },
    )
}

/// The declaration `node` lies in: its first ancestor of the kind of a plain
/// declaration, when that ancestor's range encloses the node's.
pub fn get_parent_declaration<'a>(node: CssNodeRef<'a>) -> (r: Option<&'a CssNode>)
    requires
        node.valid(),
    ensures
        exists|a: Option<NodeId>|
            #[trigger] declaration_ancestor(node.nodes(), node.id, a) && match a {
                Some(d) => {
                    let dv = node.nodes()[d].2;
                    let encl = dv.offset <= node.node().offset && dv.offset + dv.length
                        >= node.node().offset + node.node().length;
                    if encl {
                        r == Some(&dv)
                    } else {
                        r is None
                    }
                },
                None => r is None,
            },
{
    let node_id_dud = node.id;
    let decl = first_ancestor_of_type(
        node,
        CssNodeType::_AbstractDeclaration(
            AbstractDeclaration {
                colon_position: 0,
                semicolon_position: 0,
                abstract_decl_type: AbstractDeclarationType::Declaration(
                    Declaration {
                        property: node_id_dud,
                        expr: node_id_dud,
                        nested_properties: None,
                        declaration_type: DeclarationType::Declaration,
                    },
                ),
            },
        ),
    );
    proof {
        assert(declaration_ancestor(node.nodes(), node.id, ref_id(decl)));
    }
    match decl {
        Some(d) => {
            let dv = d.value();
            if dv.encloses(node.value()) {
                Some(dv)
            } else {
                None
            }
        },
        None => None,
    }
}

/// `a` is what walking up from `id` to the first ancestor of the kind of a plain
/// declaration finds.
pub open spec fn declaration_ancestor(
    m: Map<NodeId, (Option<NodeId>, Seq<NodeId>, CssNode)>,
    id: NodeId,
    a: Option<NodeId>,
) -> bool {
    first_ancestor_is(m, id, |v: CssNode| v.node_type.same_kind(plain_declaration(id)), a)
}

/// Among the first `hi` of `kids`, the index of the last whose node starts at or before
/// `offset`.
pub open spec fn last_before(
    m: Map<NodeId, (Option<NodeId>, Seq<NodeId>, CssNode)>,
    kids: Seq<NodeId>,
    offset: usize,
    hi: int,
) -> Option<int>
    decreases hi,
{
    if hi <= 0 {
        None
    } else if m[kids[hi - 1]].2.offset <= offset {
        Some(hi - 1)
    } else {
        last_before(m, kids, offset, hi - 1)
    }
}

/// What `last_before` finds lies below `hi`.
proof fn lemma_last_before_range(
    m: Map<NodeId, (Option<NodeId>, Seq<NodeId>, CssNode)>,
    kids: Seq<NodeId>,
    offset: usize,
    hi: int,
)
    ensures
        last_before(m, kids, offset, hi) matches Some(i) ==> 0 <= i < hi,
    decreases hi,
{
    if hi > 0 {
        lemma_last_before_range(m, kids, offset, hi - 1);
    }
}

/// The child of `id` that `first_child_before_offset` picks: the last child but one or an
/// earlier one, the last that starts at or before `offset`.
pub open spec fn child_before_skipping_last(
    m: Map<NodeId, (Option<NodeId>, Seq<NodeId>, CssNode)>,
    id: NodeId,
    offset: usize,
) -> Option<NodeId> {
    let kids = m[id].1;
    if kids.len() == 0 {
        None
    } else {
        match last_before(m, kids, offset, kids.len() - 1) {
            Some(i) => Some(kids[i]),
            None => None,
        }
    }
}

/// The last child of `id` that starts at or before `offset`.
pub open spec fn child_before(
    m: Map<NodeId, (Option<NodeId>, Seq<NodeId>, CssNode)>,
    id: NodeId,
    offset: usize,
) -> Option<NodeId> {
    let kids = m[id].1;
    match last_before(m, kids, offset, kids.len() as int) {
        Some(i) => Some(kids[i]),
        None => None,
    }
}

/// Searches `kids[..hi]` from the back for a node that starts at or before `offset`.
fn search_back(
    tree: &Tree<CssNode>,
    kids: &Vec<NodeId>,
    offset: usize,
    hi: usize,
) -> (r: Option<usize>)
    requires
        hi <= kids@.len(),
        forall|i: int| 0 <= i < kids@.len() ==> css_tree(*tree).1.contains_key(#[trigger] kids@[i]),
    ensures
        r == (match last_before(css_tree(*tree).1, kids@, offset, hi as int) {
            Some(i) => Some(i as usize),
            None => None::<usize>,
        }),
        r matches Some(i) ==> i < hi,
{
    proof {
        lemma_last_before_range(css_tree(*tree).1, kids@, offset, hi as int);
    }
    let mut i = hi;
    while i > 0
        invariant
            i <= hi <= kids@.len(),
            forall|j: int| 0 <= j < kids@.len() ==> css_tree(*tree).1.contains_key(#[trigger] kids@[j]),
            last_before(css_tree(*tree).1, kids@, offset, hi as int) == last_before(
                css_tree(*tree).1,
                kids@,
                offset,
                i as int,
            ),
        decreases i,
    {
        let v = css_tree_value(tree, kids[i - 1]).unwrap();
        if v.offset <= offset {
            return Some(i - 1);
        }
        i -= 1;
    }
    None
}

/// The last child of `node` but one, or an earlier one, that starts at or before
/// `offset`. A node with exactly one child is refused: the count of its children less
/// two does not exist.
pub fn first_child_before_offset<'a>(node: CssNodeRef<'a>, offset: usize) -> (r: Option<
    CssNodeRef<'a>,
>)
    requires
        node.valid(),
        node.nodes()[node.id].1.len() != 1,
    ensures
        ref_id(r) == child_before_skipping_last(node.nodes(), node.id, offset),
        r matches Some(x) ==> x.tree == node.tree,
{
    let kids = node.children();
    proof {
        lemma_children_in_tree(node.nodes(), node.id);
    }
    if kids.len() == 0 {
        return None;
    }
    proof {
        lemma_last_before_range(node.nodes(), kids@, offset, kids@.len() - 1);
    }
    match search_back(node.tree, &kids, offset, kids.len() - 1) {
        Some(i) => Some(CssNodeRef { tree: node.tree, id: kids[i] }),
        None => None,
    }
}

/// The end of a node's range.
pub open spec fn node_end(m: Map<NodeId, (Option<NodeId>, Seq<NodeId>, CssNode)>, id: NodeId) -> int {
    m[id].2.offset + m[id].2.length
}

/// The node `find_child_at_offset` reaches going down at most `fuel` levels: below each
/// node the child `first_child_before_offset` picks, while it does not end before
/// `offset`; the deepest such child.
pub open spec fn deep_child_skipping_last(
    m: Map<NodeId, (Option<NodeId>, Seq<NodeId>, CssNode)>,
    id: NodeId,
    offset: usize,
    fuel: nat,
) -> Option<NodeId>
    decreases fuel,
{
    if fuel == 0 {
        None
    } else {
        match child_before_skipping_last(m, id, offset) {
            None => None,
            Some(c) => if node_end(m, c) < offset {
                None
            } else {
                match deep_child_skipping_last(m, c, offset, (fuel - 1) as nat) {
                    Some(x) => Some(x),
                    None => Some(c),
                }
            },
        }
    }
}

/// From `f0` levels on, going down finds `r`.
pub open spec fn deep_child_settles(
    m: Map<NodeId, (Option<NodeId>, Seq<NodeId>, CssNode)>,
    id: NodeId,
    offset: usize,
    r: Option<NodeId>,
    f0: nat,
) -> bool {
    forall|f: nat| f >= f0 ==> r == #[trigger] deep_child_skipping_last(m, id, offset, f)
}

/// Going down settles on one result only.
pub proof fn lemma_deep_child_skipping_last_unique(
    m: Map<NodeId, (Option<NodeId>, Seq<NodeId>, CssNode)>,
    id: NodeId,
    offset: usize,
    r1: Option<NodeId>,
    f1: nat,
    r2: Option<NodeId>,
    f2: nat,
)
    requires
        deep_child_settles(m, id, offset, r1, f1),
        deep_child_settles(m, id, offset, r2, f2),
    ensures
        r1 == r2,
{
    let f = if f1 > f2 { f1 } else { f2 };
    assert(r1 == deep_child_skipping_last(m, id, offset, f));
    assert(r2 == deep_child_skipping_last(m, id, offset, f));
}

/// Going down at most `fuel` levels as `find_child_at_offset` does, no node on the way
/// has exactly one child and the end of each picked child fits in a `usize`.
pub open spec fn skipping_path_ok(
    m: Map<NodeId, (Option<NodeId>, Seq<NodeId>, CssNode)>,
    id: NodeId,
    offset: usize,
    fuel: nat,
) -> bool
    decreases fuel,
{
    fuel == 0 || (m[id].1.len() != 1 && match child_before_skipping_last(m, id, offset) {
        None => true,
        Some(c) => node_end(m, c) <= usize::MAX && (node_end(m, c) < offset || skipping_path_ok(
            m,
            c,
            offset,
            (fuel - 1) as nat,
        )),
    })
}

fn deep_child_below(
    node: CssNodeRef,
    offset: usize,
    Ghost(depth): Ghost<Map<NodeId, nat>>,
    Ghost(bound): Ghost<nat>,
) -> (r: Option<NodeId>)
    requires
        tree_links_ok(node.nodes(), depth, bound),
        node.nodes().contains_key(node.id),
        forall|f: nat| #[trigger] skipping_path_ok(node.nodes(), node.id, offset, f),
    ensures
        exists|f0: nat| deep_child_settles(node.nodes(), node.id, offset, r, f0),
    decreases bound - depth[node.id],
{
    let ghost m = node.nodes();
    proof {
        assert(tree_wf(m));
        assert(skipping_path_ok(m, node.id, offset, 1));
    }
    match first_child_before_offset(node, offset) {
        None => {
            proof {
                assert forall|f: nat| f >= 1 implies None::<NodeId> == #[trigger] deep_child_skipping_last(
                    m,
                    node.id,
                    offset,
                    f,
                ) by {}
                assert(deep_child_settles(m, node.id, offset, None, 1));
            }
            None
        },
        Some(c) => {
            proof {
                let kids = m[node.id].1;
                lemma_last_before_range(m, kids, offset, kids.len() - 1);
                lemma_children_in_tree(m, node.id);
                assert(m[node.id] == m[node.id]);
                assert(m[c.id] == m[c.id]);
            }
            if c.value().end() < offset {
                proof {
                    assert forall|f: nat| f >= 1 implies None::<NodeId> == #[trigger] deep_child_skipping_last(
                        m,
                        node.id,
                        offset,
                        f,
                    ) by {}
                    assert(deep_child_settles(m, node.id, offset, None, 1));
                }
                return None;
            }
            proof {
                assert forall|f: nat| #[trigger] skipping_path_ok(m, c.id, offset, f) by {
                    assert(skipping_path_ok(m, node.id, offset, f + 1));
                }
            }
            let below = deep_child_below(c, offset, Ghost(depth), Ghost(bound));
            let r = match below {
                Some(x) => Some(x),
                None => Some(c.id),
            };
            proof {
                let f0c = choose|f0: nat| deep_child_settles(m, c.id, offset, below, f0);
                assert forall|f: nat| f >= f0c + 1 implies r == #[trigger] deep_child_skipping_last(
                    m,
                    node.id,
                    offset,
                    f,
                ) by {
                    assert(below == deep_child_skipping_last(m, c.id, offset, (f - 1) as nat));
                }
                assert(deep_child_settles(m, node.id, offset, r, f0c + 1));
            }
            r
        },
    }
}

/// Going down from `node` to the child that `first_child_before_offset` picks, while it
/// does not end before `offset`, the deepest node reached; `None` without `go_deep`.
pub fn find_child_at_offset<'a>(node: CssNodeRef<'a>, offset: usize, go_deep: bool) -> (r: Option<
    CssNodeRef<'a>,
>)
    requires
        node.valid(),
        forall|f: nat| (go_deep || f <= 1) ==> #[trigger] skipping_path_ok(node.nodes(), node.id, offset, f),
    ensures
        !go_deep ==> r is None,
        go_deep ==> exists|f0: nat| deep_child_settles(node.nodes(), node.id, offset, ref_id(r), f0),
        r matches Some(x) ==> x.tree == node.tree,
{
    let ghost m = node.nodes();
    if !go_deep {
        proof {
            assert(skipping_path_ok(m, node.id, offset, 1));
        }
        match first_child_before_offset(node, offset) {
            None => {
                return None;
            },
            Some(c) => {
                proof {
                    let kids = m[node.id].1;
                    lemma_last_before_range(m, kids, offset, kids.len() - 1);
                    lemma_children_in_tree(m, node.id);
                }
                if c.value().end() < offset {
                    return None;
                }
                return None;
            },
        }
    }
    let ghost (depth, bound) = choose|depth: Map<NodeId, nat>, bound: nat| tree_links_ok(m, depth, bound);
    match deep_child_below(node, offset, Ghost(depth), Ghost(bound)) {
        Some(id) => Some(CssNodeRef { tree: node.tree, id }),
        None => None,
    }
}

/// The node `NodeRefExt::find_child_at_offset` reaches going down at most `fuel` levels:
/// below each node its last child that starts at or before `offset`, while that child
/// does not end before `offset`; the deepest such child.
pub open spec fn deep_child(
    m: Map<NodeId, (Option<NodeId>, Seq<NodeId>, CssNode)>,
    id: NodeId,
    offset: usize,
    fuel: nat,
) -> Option<NodeId>
    decreases fuel,
{
    if fuel == 0 {
        None
    } else {
        match child_before(m, id, offset) {
            None => None,
            Some(c) => if node_end(m, c) < offset {
                None
            } else {
                match deep_child(m, c, offset, (fuel - 1) as nat) {
                    Some(x) => Some(x),
                    None => Some(c),
                }
            },
        }
    }
}

/// From `f0` levels on, going down finds `r`.
pub open spec fn deep_child_from(
    m: Map<NodeId, (Option<NodeId>, Seq<NodeId>, CssNode)>,
    id: NodeId,
    offset: usize,
    r: Option<NodeId>,
    f0: nat,
) -> bool {
    forall|f: nat| f >= f0 ==> r == #[trigger] deep_child(m, id, offset, f)
}

/// Going down settles on one result only.
pub proof fn lemma_deep_child_unique(
    m: Map<NodeId, (Option<NodeId>, Seq<NodeId>, CssNode)>,
    id: NodeId,
    offset: usize,
    r1: Option<NodeId>,
    f1: nat,
    r2: Option<NodeId>,
    f2: nat,
)
    requires
        deep_child_from(m, id, offset, r1, f1),
        deep_child_from(m, id, offset, r2, f2),
    ensures
        r1 == r2,
{
    let f = if f1 > f2 { f1 } else { f2 };
    assert(r1 == deep_child(m, id, offset, f));
    assert(r2 == deep_child(m, id, offset, f));
}

/// Going down at most `fuel` levels, the end of each child reached fits in a `usize`.
pub open spec fn deep_path_ok(
    m: Map<NodeId, (Option<NodeId>, Seq<NodeId>, CssNode)>,
    id: NodeId,
    offset: usize,
    fuel: nat,
) -> bool
    decreases fuel,
{
    fuel == 0 || match child_before(m, id, offset) {
        None => true,
        Some(c) => node_end(m, c) <= usize::MAX && (node_end(m, c) < offset || deep_path_ok(
            m,
            c,
            offset,
            (fuel - 1) as nat,
        )),
    }
}

fn deep_child_at(
    node: CssNodeRef,
    offset: usize,
    Ghost(depth): Ghost<Map<NodeId, nat>>,
    Ghost(bound): Ghost<nat>,
) -> (r: Option<NodeId>)
    requires
        tree_links_ok(node.nodes(), depth, bound),
        node.nodes().contains_key(node.id),
        forall|f: nat| #[trigger] deep_path_ok(node.nodes(), node.id, offset, f),
    ensures
        exists|f0: nat| deep_child_from(node.nodes(), node.id, offset, r, f0),
    decreases bound - depth[node.id],
{
    let ghost m = node.nodes();
    proof {
        assert(tree_wf(m));
        assert(deep_path_ok(m, node.id, offset, 1));
    }
    match node.find_first_child_before_offset(offset) {
        None => {
            proof {
                assert forall|f: nat| f >= 1 implies None::<NodeId> == #[trigger] deep_child(
                    m,
                    node.id,
                    offset,
                    f,
                ) by {}
                assert(deep_child_from(m, node.id, offset, None, 1));
            }
            None
        },
        Some(c) => {
            proof {
                let kids = m[node.id].1;
                lemma_last_before_range(m, kids, offset, kids.len() as int);
                lemma_children_in_tree(m, node.id);
                assert(m[node.id] == m[node.id]);
                assert(m[c.id] == m[c.id]);
            }
            if c.value().end() < offset {
                proof {
                    assert forall|f: nat| f >= 1 implies None::<NodeId> == #[trigger] deep_child(
                        m,
                        node.id,
                        offset,
                        f,
                    ) by {}
                    assert(deep_child_from(m, node.id, offset, None, 1));
                }
                return None;
            }
            proof {
                assert forall|f: nat| #[trigger] deep_path_ok(m, c.id, offset, f) by {
                    assert(deep_path_ok(m, node.id, offset, f + 1));
                }
            }
            let below = deep_child_at(c, offset, Ghost(depth), Ghost(bound));
            let r = match below {
                Some(x) => Some(x),
                None => Some(c.id),
            };
            proof {
                let f0c = choose|f0: nat| deep_child_from(m, c.id, offset, below, f0);
                assert forall|f: nat| f >= f0c + 1 implies r == #[trigger] deep_child(
                    m,
                    node.id,
                    offset,
                    f,
                ) by {
                    assert(below == deep_child(m, c.id, offset, (f - 1) as nat));
                }
                assert(deep_child_from(m, node.id, offset, r, f0c + 1));
            }
            r
        },
    }
}

/// The children of a node of a well-formed tree are nodes of it.
proof fn lemma_children_in_tree(m: Map<NodeId, (Option<NodeId>, Seq<NodeId>, CssNode)>, id: NodeId)
    requires
        tree_wf(m),
        m.contains_key(id),
    ensures
        forall|i: int| 0 <= i < m[id].1.len() ==> m.contains_key(#[trigger] m[id].1[i]),
{
    let (depth, bound) = choose|depth: Map<NodeId, nat>, bound: nat| tree_links_ok(m, depth, bound);
    assert(m[id] == m[id]);
}

/// Lookups below a node of a tree of syntax nodes.
pub trait NodeRefExt<'a>: Sized {
    /// The node is a node of a well-formed tree.
    spec fn placed(self) -> bool;

    /// Going down from the node at `offset` (to every level with `go_deep`, else one),
    /// the end of each child reached fits in a `usize`.
    spec fn ends_fit(self, offset: usize, go_deep: bool) -> bool;

    /// The last child that starts at or before `offset`.
    fn find_first_child_before_offset(self, offset: usize) -> Option<CssNodeRef<'a>>
        requires
            self.placed(),
    ;

    /// The child at `offset`: the last child that starts at or before it, when that does
    /// not end before it; with `go_deep`, the deepest node reached so going down.
    fn find_child_at_offset(self, offset: usize, go_deep: bool) -> Option<CssNodeRef<'a>>
        requires
            self.placed(),
            self.ends_fit(offset, go_deep),
    ;
}

impl<'a> NodeRefExt<'a> for CssNodeRef<'a> {
    open spec fn placed(self) -> bool {
        self.valid()
    }

    open spec fn ends_fit(self, offset: usize, go_deep: bool) -> bool {
        forall|f: nat| (go_deep || f <= 1) ==> #[trigger] deep_path_ok(self.nodes(), self.id, offset, f)
    }

    fn find_child_at_offset(self, offset: usize, go_deep: bool) -> (r: Option<CssNodeRef<'a>>)
        ensures
            !go_deep ==> ref_id(r) == deep_child(self.nodes(), self.id, offset, 1),
            go_deep ==> exists|f0: nat| deep_child_from(self.nodes(), self.id, offset, ref_id(r), f0),
            r matches Some(x) ==> x.tree == self.tree,
    {
        let ghost m = self.nodes();
        if !go_deep {
            proof {
                assert(deep_path_ok(m, self.id, offset, 1));
            }
            let current = match self.find_first_child_before_offset(offset) {
                Some(c) => c,
                None => {
                    return None;
                },
            };
            proof {
                let kids = m[self.id].1;
                lemma_last_before_range(m, kids, offset, kids.len() as int);
                lemma_children_in_tree(m, self.id);
                assert(deep_child(m, current.id, offset, 0) is None);
            }
            if current.value().end() < offset {
                return None;
            }
            return Some(current);
        }
        let ghost (depth, bound) = choose|depth: Map<NodeId, nat>, bound: nat| tree_links_ok(m, depth, bound);
        match deep_child_at(self, offset, Ghost(depth), Ghost(bound)) {
            Some(id) => Some(CssNodeRef { tree: self.tree, id }),
            None => None,
        }
    }

    fn find_first_child_before_offset(self, offset: usize) -> (r: Option<CssNodeRef<'a>>)
        ensures
            ref_id(r) == child_before(self.nodes(), self.id, offset),
            r matches Some(x) ==> x.tree == self.tree,
    {
        let kids = self.children();
        proof {
            lemma_children_in_tree(self.nodes(), self.id);
        }
        proof {
            lemma_last_before_range(self.nodes(), kids@, offset, kids@.len() as int);
        }
        if kids.len() == 0 {
            return None;
        }
        match search_back(self.tree, &kids, offset, kids.len()) {
            Some(i) => Some(CssNodeRef { tree: self.tree, id: kids[i] }),
            None => None,
        }
    }
}

fn accept_below<F: Fn(CssNodeRef) -> bool>(
    node: CssNodeRef,
    visitor_fun: &F,
    Ghost(depth): Ghost<Map<NodeId, nat>>,
    Ghost(bound): Ghost<nat>,
)
    requires
        tree_links_ok(node.nodes(), depth, bound),
        node.nodes().contains_key(node.id),
        forall|n: CssNodeRef|
            n.tree == node.tree && n.nodes().contains_key(n.id) ==> #[trigger] call_requires(
                *visitor_fun,
                (n,),
            ),
    decreases bound - depth[node.id],
{
    if visitor_fun(node) {
        let kids = node.children();
        let ghost m = node.nodes();
        proof {
            assert(m[node.id] == m[node.id]);
        }
        let mut i: usize = 0;
        while i < kids.len()
            invariant
                m == node.nodes(),
                tree_links_ok(m, depth, bound),
                m.contains_key(node.id),
                kids@ == m[node.id].1,
                i <= kids@.len(),
                forall|n: CssNodeRef|
                    n.tree == node.tree && n.nodes().contains_key(n.id) ==> #[trigger] call_requires(
                        *visitor_fun,
                        (n,),
                    ),
            decreases kids@.len() - i,
        {
            proof {
                assert(m[node.id] == m[node.id]);
                assert(m.contains_key(kids@[i as int]));
                assert(m[kids@[i as int]] == m[kids@[i as int]]);
            }
            accept_below(CssNodeRef { tree: node.tree, id: kids[i] }, visitor_fun, Ghost(depth), Ghost(bound));
            i += 1;
        }
    }
}

/// Calls `visitor_fun` on `node` and, when it answers `true`, on the subtrees of its
/// children in order.
pub fn accept<F: Fn(CssNodeRef) -> bool>(node: CssNodeRef, visitor_fun: F)
    requires
        node.valid(),
        forall|n: CssNodeRef|
            n.tree == node.tree && n.nodes().contains_key(n.id) ==> #[trigger] call_requires(
                visitor_fun,
                (n,),
            ),
{
    let ghost m = node.nodes();
    let ghost (depth, bound) = choose|depth: Map<NodeId, nat>, bound: nat| tree_links_ok(m, depth, bound);
    accept_below(node, &visitor_fun, Ghost(depth), Ghost(bound));
}

/// The state of a visitor of type `W` after it visited, from state `v`, the subtree at
/// `node` in pre-order, going at most `fuel` levels down: the children of a node are
/// visited, in order, only when the visit of the node answers `true`.
pub open spec fn visit_subtree<'a, W: IVisitor>(v: W::V, node: CssNodeRef<'a>, fuel: nat) -> W::V
    decreases fuel, 0nat, 0nat,
{
    if fuel == 0 {
        v
    } else if W::visit_answer(v, node) {
        visit_children::<W>(W::after_visit(v, node), node, node.nodes()[node.id].1, (fuel - 1) as nat)
    } else {
        W::after_visit(v, node)
    }
}

/// The state of a visitor of type `W` after it visited, from state `v`, the subtrees at
/// `kids` (children of `node`) in order, going at most `fuel` levels down.
pub open spec fn visit_children<'a, W: IVisitor>(
    v: W::V,
    node: CssNodeRef<'a>,
    kids: Seq<NodeId>,
    fuel: nat,
) -> W::V
    decreases fuel, 1nat, kids.len(),
{
    if kids.len() == 0 {
        v
    } else {
        visit_subtree::<W>(
            visit_children::<W>(v, node, kids.drop_last(), fuel),
            CssNodeRef { tree: node.tree, id: kids.last() },
            fuel,
        )
    }
}

/// Enough levels to visit the whole subtree at `node` of a well-formed tree.
pub open spec fn subtree_fuel(node: CssNodeRef) -> nat {
    let (depth, bound) = choose|depth: Map<NodeId, nat>, bound: nat|
        tree_links_ok(node.nodes(), depth, bound);
    (bound - depth[node.id] + 1) as nat
}

/// Visiting the subtree at a node of a well-formed tree gives the same state with any
/// number of levels that reaches below its deepest node.
pub proof fn lemma_visit_fuel<'a, W: IVisitor>(
    v: W::V,
    node: CssNodeRef<'a>,
    f1: nat,
    f2: nat,
    depth: Map<NodeId, nat>,
    bound: nat,
)
    requires
        tree_links_ok(node.nodes(), depth, bound),
        node.nodes().contains_key(node.id),
        f1 > bound - depth[node.id],
        f2 > bound - depth[node.id],
    ensures
        visit_subtree::<W>(v, node, f1) == visit_subtree::<W>(v, node, f2),
    decreases bound - depth[node.id], 1nat, 0nat,
{
    let m = node.nodes();
    assert(m[node.id] == m[node.id]);
    if W::visit_answer(v, node) {
        lemma_visit_children_fuel::<W>(
            W::after_visit(v, node),
            node,
            m[node.id].1,
            (f1 - 1) as nat,
            (f2 - 1) as nat,
            depth,
            bound,
        );
    }
}

/// Visiting children of a node gives the same state with any number of levels that
/// reaches below the node's deepest descendant.
proof fn lemma_visit_children_fuel<'a, W: IVisitor>(
    v: W::V,
    node: CssNodeRef<'a>,
    kids: Seq<NodeId>,
    f1: nat,
    f2: nat,
    depth: Map<NodeId, nat>,
    bound: nat,
)
    requires
        tree_links_ok(node.nodes(), depth, bound),
        node.nodes().contains_key(node.id),
        forall|i: int|
            0 <= i < kids.len() ==> node.nodes().contains_key(#[trigger] kids[i]) && node.nodes()[kids[i]].0
                == Some(node.id),
        f1 >= bound - depth[node.id],
        f2 >= bound - depth[node.id],
    ensures
        visit_children::<W>(v, node, kids, f1) == visit_children::<W>(v, node, kids, f2),
    decreases bound - depth[node.id], 0nat, kids.len(),
{
    let m = node.nodes();
    if kids.len() > 0 {
        let k = kids.last();
        assert(kids[kids.len() - 1] == k);
        assert(m[node.id] == m[node.id]);
        assert(m[k] == m[k]);
        let child = CssNodeRef { tree: node.tree, id: k };
        lemma_visit_children_fuel::<W>(v, node, kids.drop_last(), f1, f2, depth, bound);
        lemma_visit_fuel::<W>(visit_children::<W>(v, node, kids.drop_last(), f1), child, f1, f2, depth, bound);
    }
}

fn accept_visitor_below<'a, W: IVisitor>(
    node: CssNodeRef<'a>,
    visitor: &mut W,
    Ghost(depth): Ghost<Map<NodeId, nat>>,
    Ghost(bound): Ghost<nat>,
)
    requires
        tree_links_ok(node.nodes(), depth, bound),
        node.nodes().contains_key(node.id),
    ensures
        final(visitor)@ == visit_subtree::<W>(old(visitor)@, node, (bound - depth[node.id] + 1) as nat),
    decreases bound - depth[node.id],
{
    let ghost m = node.nodes();
    let ghost f: nat = (bound - depth[node.id]) as nat;
    proof {
        assert(m[node.id] == m[node.id]);
    }
    if visitor.visit_node(node) {
        let ghost v1 = visitor@;
        let kids = node.children();
        let mut i: usize = 0;
        proof {
            assert(kids@.take(0) =~= Seq::<NodeId>::empty());
        }
        while i < kids.len()
            invariant
                m == node.nodes(),
                tree_links_ok(m, depth, bound),
                m.contains_key(node.id),
                kids@ == m[node.id].1,
                i <= kids@.len(),
                f == bound - depth[node.id],
                visitor@ == visit_children::<W>(v1, node, kids@.take(i as int), f),
            decreases kids@.len() - i,
        {
            let ghost before = visitor@;
            let ghost k = kids@[i as int];
            proof {
                assert(m[node.id] == m[node.id]);
                assert(m.contains_key(k));
                assert(m[k] == m[k]);
            }
            let child = CssNodeRef { tree: node.tree, id: kids[i] };
            accept_visitor_below(child, visitor, Ghost(depth), Ghost(bound));
            proof {
                lemma_visit_fuel::<W>(before, child, (bound - depth[k] + 1) as nat, f, depth, bound);
                let t = kids@.take(i + 1);
                assert(t.drop_last() =~= kids@.take(i as int));
                assert(t.last() == k);
            }
            i += 1;
        }
        proof {
            assert(kids@.take(kids@.len() as int) =~= kids@);
        }
    }
}

/// Has `visitor` visit `node` and, when it answers `true`, the subtrees of its children
/// in order.
pub fn accept_visitor<'a, W: IVisitor>(node: CssNodeRef<'a>, visitor: &mut W)
    requires
        node.valid(),
    ensures
        final(visitor)@ == visit_subtree::<W>(old(visitor)@, node, subtree_fuel(node)),
{
    let ghost m = node.nodes();
    let ghost (depth, bound) = choose|depth: Map<NodeId, nat>, bound: nat| tree_links_ok(m, depth, bound);
    accept_visitor_below(node, visitor, Ghost(depth), Ghost(bound));
}

/// Some node of the subtree at `id` (the node itself or one below it) has issues.
pub open spec fn subtree_erroneous(m: Map<NodeId, (Option<NodeId>, Seq<NodeId>, CssNode)>, id: NodeId) -> bool {
    exists|x: NodeId, k: nat|
        #[trigger] ancestor(m, x, k) == Some(id) && m.contains_key(x) && m[x].2.issues@.len() > 0
}

fn erroneous_below(
    tree: &Tree<CssNode>,
    id: NodeId,
    Ghost(depth): Ghost<Map<NodeId, nat>>,
    Ghost(bound): Ghost<nat>,
) -> (r: bool)
    requires
        tree_links_ok(css_tree(*tree).1, depth, bound),
        css_tree(*tree).1.contains_key(id),
    ensures
        r == subtree_erroneous(css_tree(*tree).1, id),
    decreases bound - depth[id],
{
    let ghost m = css_tree(*tree).1;
    let v = css_tree_value(tree, id).unwrap();
    if v.is_erroneous() {
        proof {
            assert(ancestor(m, id, 0) == Some(id));
        }
        return true;
    }
    let kids = css_tree_children(tree, id);
    proof {
        assert(m[id] == m[id]);
    }
    let mut i: usize = 0;
    while i < kids.len()
        invariant
            m == css_tree(*tree).1,
            tree_links_ok(m, depth, bound),
            m.contains_key(id),
            kids@ == m[id].1,
            i <= kids@.len(),
            forall|j: int| 0 <= j < i ==> !subtree_erroneous(m, #[trigger] kids@[j]),
        decreases kids@.len() - i,
    {
        proof {
            assert(m[id] == m[id]);
            assert(m.contains_key(kids@[i as int]));
            assert(m[kids@[i as int]] == m[kids@[i as int]]);
        }
        if erroneous_below(tree, kids[i], Ghost(depth), Ghost(bound)) {
            proof {
                let c = kids@[i as int];
                let (x, k) = choose|x: NodeId, k: nat|
                    #[trigger] ancestor(m, x, k) == Some(c) && m.contains_key(x) && m[x].2.issues@.len() > 0;
                assert(ancestor(m, x, k + 1) == Some(id));
            }
            return true;
        }
        i += 1;
    }
    proof {
        if subtree_erroneous(m, id) {
            let (x, k) = choose|x: NodeId, k: nat|
                #[trigger] ancestor(m, x, k) == Some(id) && m.contains_key(x) && m[x].2.issues@.len() > 0;
            assert(k > 0);
            let y = ancestor(m, x, (k - 1) as nat)->0;
            assert(ancestor(m, x, (k - 1) as nat) is Some);
            assert(m.contains_key(y) && m[y].0 == Some(id));
            assert(m[y] == m[y]);
            assert(m[id].1.contains(y));
            let j = choose|j: int| 0 <= j < m[id].1.len() && m[id].1[j] == y;
            assert(ancestor(m, x, (k - 1) as nat) == Some(kids@[j]));
            assert(subtree_erroneous(m, kids@[j]));
        }
    }
    false
}

/// Whether some node of the subtree at `node` has issues.
pub fn is_erroneous_recursive(node: CssNodeRef) -> (r: bool)
    requires
        node.valid(),
    ensures
        r == subtree_erroneous(node.nodes(), node.id),
{
    let ghost m = node.nodes();
    let ghost (depth, bound) = choose|depth: Map<NodeId, nat>, bound: nat| tree_links_ok(m, depth, bound);
    erroneous_below(node.tree, node.id, Ghost(depth), Ghost(bound))
}

/// A tree of syntax nodes, without the text it was parsed from.
pub struct SourceLessCssNodeTree(pub Tree<CssNode>);

impl SourceLessCssNodeTree {
    /// The shape of the tree.
    pub open spec fn nodes(&self) -> Map<NodeId, (Option<NodeId>, Seq<NodeId>, CssNode)> {
        css_tree(self.0).1
    }

    /// The identifier of the tree's root.
    pub open spec fn root_id(&self) -> NodeId {
        css_tree(self.0).0
    }

    /// A tree of the one node `root`.
    pub fn new(root: CssNode) -> (r: Self)
        ensures
            r.nodes() == map![r.root_id() => (None::<NodeId>, Seq::<NodeId>::empty(), root)],
            tree_wf(r.nodes()),
    {
        let r = SourceLessCssNodeTree(css_tree_new(root));
        proof {
            let m = r.nodes();
            let depth = map![r.root_id() => 0nat];
            assert(tree_links_ok(m, depth, 0));
        }
        r
    }

    /// Adds `value` in a new node with no parent and no children.
    pub fn orphan(&mut self, value: CssNode) -> (r: NodeId)
        requires
            tree_wf(old(self).nodes()),
        ensures
            tree_wf(final(self).nodes()),
            !old(self).nodes().contains_key(r),
            final(self).root_id() == old(self).root_id(),
            final(self).nodes() == old(self).nodes().insert(
                r,
                (None::<NodeId>, Seq::<NodeId>::empty(), value),
            ),
    {
        let ghost m = self.nodes();
        let r = css_tree_orphan(&mut self.0, value);
        proof {
            let m2 = self.nodes();
            let (depth, bound) = choose|depth: Map<NodeId, nat>, bound: nat| tree_links_ok(m, depth, bound);
            let d2 = depth.insert(r, 0nat);
            assert forall|id: NodeId| #![trigger m2[id]] m2.contains_key(id) implies {
                &&& d2.contains_key(id)
                &&& d2[id] <= bound
                &&& (m2[id].0 matches Some(p) ==> m2.contains_key(p) && d2[p] < d2[id]
                    && m2[p].1.contains(id))
                &&& forall|i: int|
                    0 <= i < m2[id].1.len() ==> m2.contains_key(#[trigger] m2[id].1[i]) && m2[m2[id].1[i]].0
                        == Some(id)
            } by {
                if id != r {
                    assert(m[id] == m[id]);
                    if let Some(p) = m[id].0 {
                        assert(m[p] == m[p]);
                    }
                    assert forall|i: int| 0 <= i < m2[id].1.len() implies m2.contains_key(
                        #[trigger] m2[id].1[i],
                    ) && m2[m2[id].1[i]].0 == Some(id) by {
                        let k = m[id].1[i];
                        assert(m[k] == m[k]);
                    }
                }
            }
            assert(tree_links_ok(m2, d2, bound));
        }
        r
    }

    /// Makes the node `child`, which has neither parent nor children, the last child of
    /// `parent`; `false`, with the tree unchanged, when `parent` is no node of the tree.
    pub fn append(&mut self, parent: NodeId, child: NodeId) -> (r: bool)
        requires
            tree_wf(old(self).nodes()),
            old(self).nodes().contains_key(child),
            old(self).nodes()[child].0 is None,
            old(self).nodes()[child].1.len() == 0,
            child != parent,
        ensures
            tree_wf(final(self).nodes()),
            r == old(self).nodes().contains_key(parent),
            final(self).root_id() == old(self).root_id(),
            !r ==> final(self).nodes() == old(self).nodes(),
            r ==> final(self).nodes() == old(self).nodes().insert(
                child,
                (Some(parent), Seq::<NodeId>::empty(), old(self).nodes()[child].2),
            ).insert(
                parent,
                (
                    old(self).nodes()[parent].0,
                    old(self).nodes()[parent].1.push(child),
                    old(self).nodes()[parent].2,
                ),
            ),
    {
        let ghost m = self.nodes();
        let r = css_tree_append_id(&mut self.0, parent, child);
        proof {
            if r {
                let m2 = self.nodes();
                assert(m[child].1 =~= Seq::<NodeId>::empty());
                let (depth, bound) = choose|depth: Map<NodeId, nat>, bound: nat| tree_links_ok(m, depth, bound);
                assert(m[parent] == m[parent]);
                assert(m[child] == m[child]);
                let d2 = depth.insert(child, depth[parent] + 1);
                let b2 = bound + 1;
                assert forall|id: NodeId| #![trigger m2[id]] m2.contains_key(id) implies {
                    &&& d2.contains_key(id)
                    &&& d2[id] <= b2
                    &&& (m2[id].0 matches Some(p) ==> m2.contains_key(p) && d2[p] < d2[id]
                        && m2[p].1.contains(id))
                    &&& forall|i: int|
                        0 <= i < m2[id].1.len() ==> m2.contains_key(#[trigger] m2[id].1[i])
                            && m2[m2[id].1[i]].0 == Some(id)
                } by {
                    assert(m.contains_key(id));
                    assert(m[id] == m[id]);
                    if id == child {
                        assert(m2[parent].1[m2[parent].1.len() - 1] == child);
                    } else {
                        if let Some(p) = m[id].0 {
                            assert(m[p] == m[p]);
                            assert(p != child);
                            if p == parent {
                                assert(m[parent].1.contains(id));
                                let w = choose|w: int| 0 <= w < m[parent].1.len() && m[parent].1[w] == id;
                                assert(m2[parent].1[w] == id);
                            }
                        }
                        assert forall|i: int| 0 <= i < m2[id].1.len() implies m2.contains_key(
                            #[trigger] m2[id].1[i],
                        ) && m2[m2[id].1[i]].0 == Some(id) by {
                            if id == parent && i == m[parent].1.len() {
                            } else {
                                let k = m[id].1[i];
                                assert(m[k] == m[k]);
                                assert(k != child);
                            }
                        }
                    }
                }
                assert(tree_links_ok(m2, d2, b2));
            }
        }
        r
    }

    /// The identifier of the tree's root.
    pub fn root(&self) -> (r: NodeId)
        ensures
            r == self.root_id(),
    {
        css_tree_root(&self.0)
    }

    /// Takes the value out of the node `id`, which the tree has, leaving an empty
    /// undefined node there; the shape stays.
    pub fn take_value(&mut self, id: NodeId) -> (r: CssNode)
        requires
            tree_wf(old(self).nodes()),
            old(self).nodes().contains_key(id),
        ensures
            tree_wf(final(self).nodes()),
            r == old(self).nodes()[id].2,
            final(self).root_id() == old(self).root_id(),
            final(self).nodes() == old(self).nodes().insert(
                id,
                (old(self).nodes()[id].0, old(self).nodes()[id].1, final(self).nodes()[id].2),
            ),
    {
        self.set_value(id, CssNode::new(0, 0, CssNodeType::Undefined))
    }

    /// Puts `value` in the node `id`, which the tree has, and gives back the value it
    /// held; the shape stays.
    pub fn set_value(&mut self, id: NodeId, value: CssNode) -> (r: CssNode)
        requires
            tree_wf(old(self).nodes()),
            old(self).nodes().contains_key(id),
        ensures
            r == old(self).nodes()[id].2,
            tree_wf(final(self).nodes()),
            final(self).root_id() == old(self).root_id(),
            final(self).nodes() == old(self).nodes().insert(
                id,
                (old(self).nodes()[id].0, old(self).nodes()[id].1, value),
            ),
    {
        let ghost m = self.nodes();
        let r = css_tree_replace(&mut self.0, id, value);
        proof {
            let m2 = self.nodes();
            let (depth, bound) = choose|depth: Map<NodeId, nat>, bound: nat| tree_links_ok(m, depth, bound);
            assert forall|k: NodeId| #![trigger m2[k]] m2.contains_key(k) implies {
                &&& depth.contains_key(k)
                &&& depth[k] <= bound
                &&& (m2[k].0 matches Some(p) ==> m2.contains_key(p) && depth[p] < depth[k]
                    && m2[p].1.contains(k))
                &&& forall|i: int|
                    0 <= i < m2[k].1.len() ==> m2.contains_key(#[trigger] m2[k].1[i]) && m2[m2[k].1[i]].0
                        == Some(k)
            } by {
                assert(m[k] == m[k]);
                if let Some(p) = m[k].0 {
                    assert(m[p] == m[p]);
                }
                assert forall|i: int| 0 <= i < m2[k].1.len() implies m2.contains_key(
                    #[trigger] m2[k].1[i],
                ) && m2[m2[k].1[i]].0 == Some(k) by {
                    let c = m[k].1[i];
                    assert(m[c] == m[c]);
                }
            }
            assert(tree_links_ok(m2, depth, bound));
        }
        r
    }

    /// The node `node_id` of the tree, if it has one.
    pub fn get(&self, node_id: NodeId) -> (r: Option<CssNodeRef<'_>>)
        ensures
            r is Some <==> self.nodes().contains_key(node_id),
            r matches Some(x) ==> x.tree == &self.0 && x.id == node_id,
    {
        match css_tree_value(&self.0, node_id) {
            Some(_) => Some(CssNodeRef { tree: &self.0, id: node_id }),
            None => None,
        }
    }

    /// The text of the node `node_id` in `source`.
    pub fn get_text<'a>(&self, node_id: NodeId, source: &'a str) -> (r: &'a str)
        requires
            self.nodes().contains_key(node_id),
            self.nodes()[node_id].2.offset + self.nodes()[node_id].2.length <= usize::MAX,
            cidx(source@, self.nodes()[node_id].2.offset as int) is Some,
            cidx(source@, self.nodes()[node_id].2.offset + self.nodes()[node_id].2.length) is Some,
        ensures
            r@ == source@.subrange(
                cidx(source@, self.nodes()[node_id].2.offset as int)->0,
                cidx(source@, self.nodes()[node_id].2.offset + self.nodes()[node_id].2.length)->0,
            ),
    {
        let val = css_tree_value(&self.0, node_id).unwrap();
        let o: usize = val.offset;
        str_slice(source, o, o + val.length)
    }

    /// Whether walking up from the node `node_id` reaches the root.
    pub fn is_attached(&self, node_id: NodeId) -> (r: bool)
        requires
            tree_wf(self.nodes()),
            self.nodes().contains_key(node_id),
        ensures
            r == exists|k: nat| #[trigger] ancestor(self.nodes(), node_id, k) == Some(self.root_id()),
    {
        let ghost m = self.nodes();
        let ghost (depth, bound) = choose|depth: Map<NodeId, nat>, bound: nat| tree_links_ok(m, depth, bound);
        let root = css_tree_root(&self.0);
        let mut cur = node_id;
        let ghost mut k: nat = 0;
        loop
            invariant
                m == self.nodes(),
                root == self.root_id(),
                tree_links_ok(m, depth, bound),
                m.contains_key(cur),
                ancestor(m, node_id, k) == Some(cur),
                forall|j: nat| j < k ==> #[trigger] ancestor(m, node_id, j) != Some(root),
            decreases depth[cur],
        {
            if node_id_eq(cur, root) {
                return true;
            }
            match css_tree_parent(&self.0, cur) {
                Some(p) => {
                    proof {
                        assert(ancestor(m, node_id, k + 1) == Some(p));
                        k = k + 1;
                    }
                    cur = p;
                },
                None => {
                    proof {
                        assert(ancestor(m, node_id, k + 1) is None);
                        assert forall|j: nat| #[trigger] ancestor(m, node_id, j) != Some(root) by {
                            if j > k + 1 {
                                lemma_ancestor_none_after(m, node_id, k + 1, j);
                            }
                        }
                    }
                    return false;
                },
            }
        }
    }
}

/// Once the walk up runs out of parents it stays out.
pub proof fn lemma_ancestor_none_after<V>(
    m: Map<NodeId, (Option<NodeId>, Seq<NodeId>, V)>,
    id: NodeId,
    k: nat,
    j: nat,
)
    requires
        ancestor(m, id, k) is None,
        k <= j,
    ensures
        ancestor(m, id, j) is None,
    decreases j - k,
{
    if k < j {
        lemma_ancestor_none_after(m, id, k, (j - 1) as nat);
    }
}

impl Default for SourceLessCssNodeTree {
    /// A tree of one root node not yet placed: its offset is `usize::MAX`.
    fn default() -> (r: Self)
        ensures
            r.nodes().dom() == set![r.root_id()],
            r.nodes()[r.root_id()].2.offset == usize::MAX,
            r.nodes()[r.root_id()].2.length == 0,
            r.nodes()[r.root_id()].2.issues@.len() == 0,
            r.nodes()[r.root_id()].2.node_type is ROOT,
            tree_wf(r.nodes()),
    {
        let r = Self::new(CssNode { offset: usize::MAX, length: 0, issues: Vec::new(), node_type: CssNodeType::ROOT });
        proof {
            assert(r.nodes().dom() =~= set![r.root_id()]);
        }
        r
    }
}

/// A tree of syntax nodes with the text it was parsed from.
pub struct CssNodeTree(pub SourceLessCssNodeTree, pub String);

impl CssNodeTree {
    pub fn new(tree: SourceLessCssNodeTree, source: String) -> (r: Self)
        ensures
            r.0 == tree,
            r.1 == source,
    {
        CssNodeTree(tree, source)
    }

    /// The node `node_id` of the tree, if it has one.
    pub fn get(&self, node_id: NodeId) -> (r: Option<CssNodeRef<'_>>)
        ensures
            r is Some <==> self.0.nodes().contains_key(node_id),
            r matches Some(x) ==> x.tree == &self.0.0 && x.id == node_id,
    {
        self.0.get(node_id)
    }

    /// The text a node covers.
    pub open spec fn text_of(&self, node_id: NodeId) -> Seq<char> {
        let v = self.0.nodes()[node_id].2;
        self.1@.subrange(
            cidx(self.1@, v.offset as int)->0,
            cidx(self.1@, v.offset + v.length)->0,
        )
    }

    /// The node's range lies on character boundaries of the text.
    pub open spec fn has_text(&self, node_id: NodeId) -> bool {
        let v = self.0.nodes()[node_id].2;
        &&& self.0.nodes().contains_key(node_id)
        &&& v.offset + v.length <= usize::MAX
        &&& cidx(self.1@, v.offset as int) is Some
        &&& cidx(self.1@, v.offset + v.length) is Some
    }

    /// The text of the node `node_id`.
    pub fn get_text(&self, node_id: NodeId) -> (r: &str)
        requires
            self.has_text(node_id),
        ensures
            r@ == self.text_of(node_id),
    {
        self.0.get_text(node_id, self.1.as_str())
    }

    /// Whether the text of the node `node_id` is `s`.
    pub fn matches(&self, node_id: NodeId, s: &str) -> (r: bool)
        requires
            self.has_text(node_id),
        ensures
            r == (self.text_of(node_id) == s@),
    {
        let t = collect_chars(self.get_text(node_id));
        let w = collect_chars(s);
        eq_chars(&t, w.as_slice())
    }

    /// Whether the text of the node `node_id` starts with `s`.
    pub fn starts_with(&self, node_id: NodeId, s: &str) -> (r: bool)
        requires
            self.has_text(node_id),
        ensures
            r == has_prefix(self.text_of(node_id), s@),
    {
        let t = collect_chars(self.get_text(node_id));
        let w = collect_chars(s);
        has_prefix_chars(&t, w.as_slice())
    }

    /// Whether the text of the node `node_id` ends with `s`.
    pub fn ends_with(&self, node_id: NodeId, s: &str) -> (r: bool)
        requires
            self.has_text(node_id),
        ensures
            r == has_suffix(self.text_of(node_id), s@),
    {
        let t = collect_chars(self.get_text(node_id));
        let w = collect_chars(s);
        has_suffix_chars(&t, w.as_slice())
    }
}

impl Default for CssNodeTree {
    /// An empty text and a tree of one root node covering none of it.
    fn default() -> (r: Self)
        ensures
            r.1@ == Seq::<char>::empty(),
            r.0.nodes().dom() == set![r.0.root_id()],
            r.0.nodes()[r.0.root_id()].2.offset == 0,
            r.0.nodes()[r.0.root_id()].2.length == 0,
            r.0.nodes()[r.0.root_id()].2.issues@.len() == 0,
            r.0.nodes()[r.0.root_id()].2.node_type is ROOT,
            tree_wf(r.0.nodes()),
    {
        let tree = SourceLessCssNodeTree::new(
            CssNode { offset: 0, length: 0, issues: Vec::new(), node_type: CssNodeType::ROOT },
        );
        proof {
            assert(tree.nodes().dom() =~= set![tree.root_id()]);
        }
        CssNodeTree(tree, String::new())
    }
}

/// Whether a statement that is a node of type `t` ends with a semicolon: references,
/// return statements, media queries, `@debug`, `@import` and `@apply` do; a variable
/// declaration does when it says so; a mixin reference does when it has no content
/// block; a custom property declaration does, and a plain declaration when it has no
/// nested properties. Nothing else does.
pub open spec fn semicolon_after(t: CssNodeType) -> bool {
    match t {
        CssNodeType::ExtendsReference | CssNodeType::MixinContentReference
        | CssNodeType::ReturnStatement | CssNodeType::MediaQuery | CssNodeType::Debug
        | CssNodeType::Import | CssNodeType::AtApplyRule => true,
        CssNodeType::VariableDeclaration(v) => v.needs_semicolon,
        CssNodeType::MixinReference(m) => m.content is None,
        CssNodeType::_AbstractDeclaration(a) => match a.abstract_decl_type {
            AbstractDeclarationType::Declaration(d) => match d.declaration_type {
                DeclarationType::CustomPropertyDeclaration(_) => true,
                DeclarationType::Declaration => d.nested_properties is None,
            },
            _ => false,
        },
        _ => false,
    }
}

/// Whether the statement `node` ends with a semicolon.
pub fn _needs_semicolon_after(node: &CssNode) -> (r: bool)
    ensures
        r == semicolon_after(node.node_type),
{
    match &node.node_type {
        CssNodeType::Namespace => false,
        CssNodeType::_BodyDeclaration(_) => false,
        CssNodeType::ExtendsReference | CssNodeType::MixinContentReference
        | CssNodeType::ReturnStatement | CssNodeType::MediaQuery | CssNodeType::Debug
        | CssNodeType::Import | CssNodeType::AtApplyRule => true,
        CssNodeType::VariableDeclaration(v) => v.needs_semicolon,
        CssNodeType::MixinReference(m) => m.content.is_none(),
        CssNodeType::_AbstractDeclaration(a) => match &a.abstract_decl_type {
            AbstractDeclarationType::Declaration(d) => match d.declaration_type {
                DeclarationType::CustomPropertyDeclaration(..) => true,
                DeclarationType::Declaration => d.nested_properties.is_none(),
            },
            _ => false,
        },
        _ => false,
    }
}

} // verus!
