//! Vocabulary of the row-based CSS grammar.
use crate::syntax_kind::SyntaxKind;
use vstd::prelude::*;

verus! {

/// What a name refers to.
#[derive(Debug, Clone, Copy, PartialEq, Eq, Structural)]
pub enum ReferenceType {
    Mixin,
    Rule,
    Variable,
    Function,
    Keyframe,
    Unknown,
    Module,
    Forward,
    ForwardVisibility,
    Property,
}

/// Whether a statement of kind `sk` ends with a semicolon; `None` for the kinds
/// the grammar does not decide this for.
pub open spec fn semicolon_after(sk: SyntaxKind) -> Option<bool> {
    match sk {
        SyntaxKind::KEYFRAME
        | SyntaxKind::UNKNOWN_AT_RULE
        | SyntaxKind::KEYFRAME_SELECTOR
        | SyntaxKind::VIEW_PORT
        | SyntaxKind::MEDIA
        | SyntaxKind::PAGE
        | SyntaxKind::PAGE_BOX_MARGIN_BOX
        | SyntaxKind::RULE_SET
        | SyntaxKind::SCSS_IF_STATEMENT
        | SyntaxKind::SCSS_FOR_STATEMENT
        | SyntaxKind::SCSS_EACH_STATEMENT
        | SyntaxKind::SCSS_WHILE_STATEMENT
        | SyntaxKind::XCSS_MIXIN_DECLARATION
        | SyntaxKind::SCSS_FUNCTION_DECLARATION
        | SyntaxKind::SCSS_MIXIN_CONTENT_DECLARATION
        | SyntaxKind::PROPERTY_AT_RULE
        | SyntaxKind::NAMESPACE => Some(false),
        SyntaxKind::MEDIA_QUERY
        | SyntaxKind::IMPORT
        | SyntaxKind::XCSS_EXTENDS_REFERENCE
        | SyntaxKind::SCSS_MIXIN_CONTENT_REFERENCE
        | SyntaxKind::SCSS_RETURN_STATEMENT
        | SyntaxKind::SCSS_DEBUG => Some(true),
        SyntaxKind::DECLARATION_CUSTOM_PROPERTY => Some(true),
        SyntaxKind::DECLARATION_BASIC => Some(false),
        _ => None,
    }
}

/// Whether a statement of kind `sk` ends with a semicolon: at-rules with blocks
/// and rule sets do not, statement at-rules and custom property declarations do.
pub fn needs_semicolon_after(sk: SyntaxKind) -> (r: bool)
    requires
        semicolon_after(sk) is Some,
    ensures
        r == semicolon_after(sk)->0,
{
    match sk {
        SyntaxKind::KEYFRAME
        | SyntaxKind::UNKNOWN_AT_RULE
        | SyntaxKind::KEYFRAME_SELECTOR
        | SyntaxKind::VIEW_PORT
        | SyntaxKind::MEDIA
        | SyntaxKind::PAGE
        | SyntaxKind::PAGE_BOX_MARGIN_BOX
        | SyntaxKind::RULE_SET
        | SyntaxKind::SCSS_IF_STATEMENT
        | SyntaxKind::SCSS_FOR_STATEMENT
        | SyntaxKind::SCSS_EACH_STATEMENT
        | SyntaxKind::SCSS_WHILE_STATEMENT
        | SyntaxKind::XCSS_MIXIN_DECLARATION
        | SyntaxKind::SCSS_FUNCTION_DECLARATION
        | SyntaxKind::SCSS_MIXIN_CONTENT_DECLARATION
        | SyntaxKind::PROPERTY_AT_RULE
        | SyntaxKind::NAMESPACE => false,
        SyntaxKind::MEDIA_QUERY
        | SyntaxKind::IMPORT
        | SyntaxKind::XCSS_EXTENDS_REFERENCE
        | SyntaxKind::SCSS_MIXIN_CONTENT_REFERENCE
        | SyntaxKind::SCSS_RETURN_STATEMENT
        | SyntaxKind::SCSS_DEBUG => true,
        SyntaxKind::DECLARATION_CUSTOM_PROPERTY => true,
        _ => false,
    }
}

} // verus!
