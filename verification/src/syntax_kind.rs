//! Kinds of the tokens and syntax nodes of a CSS syntax tree.
use vstd::prelude::*;

verus! {

/// The kind of a token or of a syntax node.
///
/// The kinds are declared in a fixed order: the two technical kinds, the plain
/// tokens, the punctuation, the dimensions, the at-keywords, the contextual
/// tokens, then the nodes. Every token kind lies below 128, so a set of tokens
/// fits a `TokenSet`.
#[allow(non_camel_case_types)]
#[derive(Clone, Copy, PartialEq, Eq, Structural, Debug, Hash)]
pub enum SyntaxKind {
    TOMBSTONE,
    EOF,
    ERROR,
    IDENTIFIER,
    STRING,
    URL,
    BAD_STRING,
    BAD_URL,
    UNRESTRICTED_HASH,
    ID_HASH,
    NUMBER,
    CHARSET,
    WHITESPACE,
    COMMENT,
    UNICODE_RANGE,
    FUNCTION,
    CDO,
    CDC,
    SEMICOLON,
    COMMA,
    EXCLAMATION,
    L_PAREN,
    R_PAREN,
    L_CURLY,
    R_CURLY,
    L_BRACK,
    R_BRACK,
    L_ANGLE,
    R_ANGLE,
    AT,
    POUND,
    TILDE,
    QUESTION,
    DOLLAR,
    AMP,
    PIPE,
    PLUS,
    STAR,
    SLASH,
    CARET,
    PERCENT,
    UNDERSCORE,
    DOT,
    DOT2,
    DOT3,
    DOT2EQ,
    COLON,
    COLON2,
    EQ,
    EQ2,
    FAT_ARROW,
    NEQ,
    MINUS,
    THIN_ARROW,
    LTEQ,
    GTEQ,
    PLUSEQ,
    MINUSEQ,
    OPERATOR_DASHMATCH,
    OPERATOR_INCLUDES,
    OPERATOR_PREFIX,
    OPERATOR_SUFFIX,
    OPERATOR_SUBSTRING,
    PERCENTEQ,
    AMP2,
    PIPE2,
    SHL,
    SHR,
    SHLEQ,
    SHREQ,
    DIM_UNKNOWN,
    DIM_EM,
    DIM_EX,
    DIM_PX,
    DIM_CM,
    DIM_MM,
    DIM_IN,
    DIM_PT,
    DIM_PC,
    DIM_DEG,
    DIM_RAD,
    DIM_GRAD,
    DIM_MS,
    DIM_S,
    DIM_HZ,
    DIM_KHZ,
    DIM_PERCENT,
    DIM_FR,
    DIM_DPI,
    DIM_DPCM,
    DIM_CQW,
    DIM_CQH,
    DIM_CQI,
    DIM_CQB,
    DIM_CQMIN,
    DIM_CQMAX,
    ATKW_UNKNOWN,
    ATKW_IMPORT,
    ATKW_NAMESPACE,
    ATKW_FONT_FACE,
    ATKW_VIEWPORT,
    ATKW__MS_VIEWPORT,
    ATKW__O_VIEWPORT,
    ATKW_KEYFRAMES,
    ATKW__WEBKIT_KEYFRAMES,
    ATKW__MOZ_KEYFRAMES,
    ATKW__O_KEYFRAMES,
    ATKW_PROPERTY,
    ATKW_LAYER,
    ATKW_SUPPORTS,
    ATKW_MEDIA,
    ATKW_PAGE,
    ATKW__MOZ_DOCUMENT,
    ATKW_CONTAINER,
    ATKW_MARGIN_AT_RULE,
    CXID_NOT,
    CXID_AND,
    CXID_OR,
    CXID_SCREEN,
    CXID_ONLY,
    CXID_DEEP,
    CXID_ATTRIB_I,
    CXID_ATTRIB_S,
    CXID_AN_PLUS_B_SYNTAX_AN,
    CXID_OF,
    CXID_IMPORTANT,
    CXID_PROGID,
    CXID_URLPREFIX,
    CXID_VALID_CUSTOM_PROP,
    CXHASH_VALID_HEX,
    CXFUNC_LAYER,
    CXFUNC_SUPPORTS,
    CXFUNC_STYLE,
    CXFUNC_URL,
    CXDIM_AN_PLUS_B,
    TODO,
    UNDEFINED,
    SOURCE_FILE,
    RULE_SET,
    PAGE,
    PAGE_BOX_MARGIN_BOX,
    VIEW_PORT,
    DOCUMENT,
    CUSTOM_PROPERTY_SET,
    SUPPORTS,
    FONT_FACE,
    MEDIA,
    LAYER,
    KEYFRAME,
    KEYFRAME_SELECTOR,
    CONTAINER,
    PROPERTY_AT_RULE,
    UNKNOWN_AT_RULE,
    SELECTOR,
    SIMPLE_SELECTOR,
    SELECTOR_INTERPOLATION,
    SELECTOR_COMBINATOR,
    SELECTOR_COMBINATOR_PARENT,
    SELECTOR_COMBINATOR_SIBLING,
    SELECTOR_COMBINATOR_ALL_SIBLINGS,
    SELECTOR_COMBINATOR_SHADOW_PIERCING_DESCENDANT,
    SELECTOR_CLASS,
    SELECTOR_IDENTIFIER,
    SELECTOR_ELEMENT_NAME,
    SELECTOR_PSEUDO,
    SELECTOR_ATTRIBUTE,
    ABSTRACT_DECLARATION,
    DECLARATION,
    DECLARATION_BASIC,
    DECLARATION_CUSTOM_PROPERTY,
    DECLARATION_XCSS_VARIABLE,
    DECLARATIONS,
    PROPERTY,
    EXPRESSION,
    BINARY_EXPRESSION,
    TERM,
    OPERATOR,
    STRING_LITERAL,
    URI_LITERAL,
    NUMERIC_VALUE,
    HEX_COLOR_VALUE,
    RATIO_VALUE,
    PRIO,
    IMPORT,
    NAMESPACE,
    MEDIA_QUERY,
    MEDIA_CONDITION,
    MEDIA_FEATURE,
    FUNCTION_WITH_ARGS,
    FUNCTION_ARGUMENT,
    SUPPORTS_CONDITION,
    NAMESPACE_PREFIX,
    GRID_LINE,
    LAYER_NAME_LIST,
    LAYER_NAME,
    XCSS_EXTENDS_REFERENCE,
    XCSS_FUNCTION_PARAMETER,
    XCSS_MIXIN_DECLARATION,
    XCSS_MIXIN_REFERENCE,
    SCSS_NESTED_PROPERTIES,
    SCSS_SELECTOR_PLACEHOLDER,
    SCSS_DEBUG,
    SCSS_IF_STATEMENT,
    SCSS_ELSE_STATEMENT,
    SCSS_FOR_STATEMENT,
    SCSS_EACH_STATEMENT,
    SCSS_WHILE_STATEMENT,
    SCSS_RETURN_STATEMENT,
    SCSS_FUNCTION_DECLARATION,
    SCSS_LIST_ENTRY,
    SCSS_USE,
    SCSS_MODULE,
    SCSS_MODULE_CONFIGURATION,
    SCSS_FORWARD,
    SCSS_FORWARD_VISIBILITY,
    SCSS_MIXIN_CONTENT_REFERENCE,
    SCSS_MIXIN_CONTENT_DECLARATION,
    SCSS_VARIABLE_NAME,
    LESS_ESCAPED_VALUE,
    LESS_INTERPOLATION,
    LESS_PLUGIN,
    __LAST,
}

impl SyntaxKind {
    /// The position of the kind in the declaration order, which is its `u16` representation.
    pub open spec fn index(self) -> nat {
        match self {
            SyntaxKind::TOMBSTONE => 0,
            SyntaxKind::EOF => 1,
            SyntaxKind::ERROR => 2,
            SyntaxKind::IDENTIFIER => 3,
            SyntaxKind::STRING => 4,
            SyntaxKind::URL => 5,
            SyntaxKind::BAD_STRING => 6,
            SyntaxKind::BAD_URL => 7,
            SyntaxKind::UNRESTRICTED_HASH => 8,
            SyntaxKind::ID_HASH => 9,
            SyntaxKind::NUMBER => 10,
            SyntaxKind::CHARSET => 11,
            SyntaxKind::WHITESPACE => 12,
            SyntaxKind::COMMENT => 13,
            SyntaxKind::UNICODE_RANGE => 14,
            SyntaxKind::FUNCTION => 15,
            SyntaxKind::CDO => 16,
            SyntaxKind::CDC => 17,
            SyntaxKind::SEMICOLON => 18,
            SyntaxKind::COMMA => 19,
            SyntaxKind::EXCLAMATION => 20,
            SyntaxKind::L_PAREN => 21,
            SyntaxKind::R_PAREN => 22,
            SyntaxKind::L_CURLY => 23,
            SyntaxKind::R_CURLY => 24,
            SyntaxKind::L_BRACK => 25,
            SyntaxKind::R_BRACK => 26,
            SyntaxKind::L_ANGLE => 27,
            SyntaxKind::R_ANGLE => 28,
            SyntaxKind::AT => 29,
            SyntaxKind::POUND => 30,
            SyntaxKind::TILDE => 31,
            SyntaxKind::QUESTION => 32,
            SyntaxKind::DOLLAR => 33,
            SyntaxKind::AMP => 34,
            SyntaxKind::PIPE => 35,
            SyntaxKind::PLUS => 36,
            SyntaxKind::STAR => 37,
            SyntaxKind::SLASH => 38,
            SyntaxKind::CARET => 39,
            SyntaxKind::PERCENT => 40,
            SyntaxKind::UNDERSCORE => 41,
            SyntaxKind::DOT => 42,
            SyntaxKind::DOT2 => 43,
            SyntaxKind::DOT3 => 44,
            SyntaxKind::DOT2EQ => 45,
            SyntaxKind::COLON => 46,
            SyntaxKind::COLON2 => 47,
            SyntaxKind::EQ => 48,
            SyntaxKind::EQ2 => 49,
            SyntaxKind::FAT_ARROW => 50,
            SyntaxKind::NEQ => 51,
            SyntaxKind::MINUS => 52,
            SyntaxKind::THIN_ARROW => 53,
            SyntaxKind::LTEQ => 54,
            SyntaxKind::GTEQ => 55,
            SyntaxKind::PLUSEQ => 56,
            SyntaxKind::MINUSEQ => 57,
            SyntaxKind::OPERATOR_DASHMATCH => 58,
            SyntaxKind::OPERATOR_INCLUDES => 59,
            SyntaxKind::OPERATOR_PREFIX => 60,
            SyntaxKind::OPERATOR_SUFFIX => 61,
            SyntaxKind::OPERATOR_SUBSTRING => 62,
            SyntaxKind::PERCENTEQ => 63,
            SyntaxKind::AMP2 => 64,
            SyntaxKind::PIPE2 => 65,
            SyntaxKind::SHL => 66,
            SyntaxKind::SHR => 67,
            SyntaxKind::SHLEQ => 68,
            SyntaxKind::SHREQ => 69,
            SyntaxKind::DIM_UNKNOWN => 70,
            SyntaxKind::DIM_EM => 71,
            SyntaxKind::DIM_EX => 72,
            SyntaxKind::DIM_PX => 73,
            SyntaxKind::DIM_CM => 74,
            SyntaxKind::DIM_MM => 75,
            SyntaxKind::DIM_IN => 76,
            SyntaxKind::DIM_PT => 77,
            SyntaxKind::DIM_PC => 78,
            SyntaxKind::DIM_DEG => 79,
            SyntaxKind::DIM_RAD => 80,
            SyntaxKind::DIM_GRAD => 81,
            SyntaxKind::DIM_MS => 82,
            SyntaxKind::DIM_S => 83,
            SyntaxKind::DIM_HZ => 84,
            SyntaxKind::DIM_KHZ => 85,
            SyntaxKind::DIM_PERCENT => 86,
            SyntaxKind::DIM_FR => 87,
            SyntaxKind::DIM_DPI => 88,
            SyntaxKind::DIM_DPCM => 89,
            SyntaxKind::DIM_CQW => 90,
            SyntaxKind::DIM_CQH => 91,
            SyntaxKind::DIM_CQI => 92,
            SyntaxKind::DIM_CQB => 93,
            SyntaxKind::DIM_CQMIN => 94,
            SyntaxKind::DIM_CQMAX => 95,
            SyntaxKind::ATKW_UNKNOWN => 96,
            SyntaxKind::ATKW_IMPORT => 97,
            SyntaxKind::ATKW_NAMESPACE => 98,
            SyntaxKind::ATKW_FONT_FACE => 99,
            SyntaxKind::ATKW_VIEWPORT => 100,
            SyntaxKind::ATKW__MS_VIEWPORT => 101,
            SyntaxKind::ATKW__O_VIEWPORT => 102,
            SyntaxKind::ATKW_KEYFRAMES => 103,
            SyntaxKind::ATKW__WEBKIT_KEYFRAMES => 104,
            SyntaxKind::ATKW__MOZ_KEYFRAMES => 105,
            SyntaxKind::ATKW__O_KEYFRAMES => 106,
            SyntaxKind::ATKW_PROPERTY => 107,
            SyntaxKind::ATKW_LAYER => 108,
            SyntaxKind::ATKW_SUPPORTS => 109,
            SyntaxKind::ATKW_MEDIA => 110,
            SyntaxKind::ATKW_PAGE => 111,
            SyntaxKind::ATKW__MOZ_DOCUMENT => 112,
            SyntaxKind::ATKW_CONTAINER => 113,
            SyntaxKind::ATKW_MARGIN_AT_RULE => 114,
            SyntaxKind::CXID_NOT => 115,
            SyntaxKind::CXID_AND => 116,
            SyntaxKind::CXID_OR => 117,
            SyntaxKind::CXID_SCREEN => 118,
            SyntaxKind::CXID_ONLY => 119,
            SyntaxKind::CXID_DEEP => 120,
            SyntaxKind::CXID_ATTRIB_I => 121,
            SyntaxKind::CXID_ATTRIB_S => 122,
            SyntaxKind::CXID_AN_PLUS_B_SYNTAX_AN => 123,
            SyntaxKind::CXID_OF => 124,
            SyntaxKind::CXID_IMPORTANT => 125,
            SyntaxKind::CXID_PROGID => 126,
            SyntaxKind::CXID_URLPREFIX => 127,
            SyntaxKind::CXID_VALID_CUSTOM_PROP => 128,
            SyntaxKind::CXHASH_VALID_HEX => 129,
            SyntaxKind::CXFUNC_LAYER => 130,
            SyntaxKind::CXFUNC_SUPPORTS => 131,
            SyntaxKind::CXFUNC_STYLE => 132,
            SyntaxKind::CXFUNC_URL => 133,
            SyntaxKind::CXDIM_AN_PLUS_B => 134,
            SyntaxKind::TODO => 135,
            SyntaxKind::UNDEFINED => 136,
            SyntaxKind::SOURCE_FILE => 137,
            SyntaxKind::RULE_SET => 138,
            SyntaxKind::PAGE => 139,
            SyntaxKind::PAGE_BOX_MARGIN_BOX => 140,
            SyntaxKind::VIEW_PORT => 141,
            SyntaxKind::DOCUMENT => 142,
            SyntaxKind::CUSTOM_PROPERTY_SET => 143,
            SyntaxKind::SUPPORTS => 144,
            SyntaxKind::FONT_FACE => 145,
            SyntaxKind::MEDIA => 146,
            SyntaxKind::LAYER => 147,
            SyntaxKind::KEYFRAME => 148,
            SyntaxKind::KEYFRAME_SELECTOR => 149,
            SyntaxKind::CONTAINER => 150,
            SyntaxKind::PROPERTY_AT_RULE => 151,
            SyntaxKind::UNKNOWN_AT_RULE => 152,
            SyntaxKind::SELECTOR => 153,
            SyntaxKind::SIMPLE_SELECTOR => 154,
            SyntaxKind::SELECTOR_INTERPOLATION => 155,
            SyntaxKind::SELECTOR_COMBINATOR => 156,
            SyntaxKind::SELECTOR_COMBINATOR_PARENT => 157,
            SyntaxKind::SELECTOR_COMBINATOR_SIBLING => 158,
            SyntaxKind::SELECTOR_COMBINATOR_ALL_SIBLINGS => 159,
            SyntaxKind::SELECTOR_COMBINATOR_SHADOW_PIERCING_DESCENDANT => 160,
            SyntaxKind::SELECTOR_CLASS => 161,
            SyntaxKind::SELECTOR_IDENTIFIER => 162,
            SyntaxKind::SELECTOR_ELEMENT_NAME => 163,
            SyntaxKind::SELECTOR_PSEUDO => 164,
            SyntaxKind::SELECTOR_ATTRIBUTE => 165,
            SyntaxKind::ABSTRACT_DECLARATION => 166,
            SyntaxKind::DECLARATION => 167,
            SyntaxKind::DECLARATION_BASIC => 168,
            SyntaxKind::DECLARATION_CUSTOM_PROPERTY => 169,
            SyntaxKind::DECLARATION_XCSS_VARIABLE => 170,
            SyntaxKind::DECLARATIONS => 171,
            SyntaxKind::PROPERTY => 172,
            SyntaxKind::EXPRESSION => 173,
            SyntaxKind::BINARY_EXPRESSION => 174,
            SyntaxKind::TERM => 175,
            SyntaxKind::OPERATOR => 176,
            SyntaxKind::STRING_LITERAL => 177,
            SyntaxKind::URI_LITERAL => 178,
            SyntaxKind::NUMERIC_VALUE => 179,
            SyntaxKind::HEX_COLOR_VALUE => 180,
            SyntaxKind::RATIO_VALUE => 181,
            SyntaxKind::PRIO => 182,
            SyntaxKind::IMPORT => 183,
            SyntaxKind::NAMESPACE => 184,
            SyntaxKind::MEDIA_QUERY => 185,
            SyntaxKind::MEDIA_CONDITION => 186,
            SyntaxKind::MEDIA_FEATURE => 187,
            SyntaxKind::FUNCTION_WITH_ARGS => 188,
            SyntaxKind::FUNCTION_ARGUMENT => 189,
            SyntaxKind::SUPPORTS_CONDITION => 190,
            SyntaxKind::NAMESPACE_PREFIX => 191,
            SyntaxKind::GRID_LINE => 192,
            SyntaxKind::LAYER_NAME_LIST => 193,
            SyntaxKind::LAYER_NAME => 194,
            SyntaxKind::XCSS_EXTENDS_REFERENCE => 195,
            SyntaxKind::XCSS_FUNCTION_PARAMETER => 196,
            SyntaxKind::XCSS_MIXIN_DECLARATION => 197,
            SyntaxKind::XCSS_MIXIN_REFERENCE => 198,
            SyntaxKind::SCSS_NESTED_PROPERTIES => 199,
            SyntaxKind::SCSS_SELECTOR_PLACEHOLDER => 200,
            SyntaxKind::SCSS_DEBUG => 201,
            SyntaxKind::SCSS_IF_STATEMENT => 202,
            SyntaxKind::SCSS_ELSE_STATEMENT => 203,
            SyntaxKind::SCSS_FOR_STATEMENT => 204,
            SyntaxKind::SCSS_EACH_STATEMENT => 205,
            SyntaxKind::SCSS_WHILE_STATEMENT => 206,
            SyntaxKind::SCSS_RETURN_STATEMENT => 207,
            SyntaxKind::SCSS_FUNCTION_DECLARATION => 208,
            SyntaxKind::SCSS_LIST_ENTRY => 209,
            SyntaxKind::SCSS_USE => 210,
            SyntaxKind::SCSS_MODULE => 211,
            SyntaxKind::SCSS_MODULE_CONFIGURATION => 212,
            SyntaxKind::SCSS_FORWARD => 213,
            SyntaxKind::SCSS_FORWARD_VISIBILITY => 214,
            SyntaxKind::SCSS_MIXIN_CONTENT_REFERENCE => 215,
            SyntaxKind::SCSS_MIXIN_CONTENT_DECLARATION => 216,
            SyntaxKind::SCSS_VARIABLE_NAME => 217,
            SyntaxKind::LESS_ESCAPED_VALUE => 218,
            SyntaxKind::LESS_INTERPOLATION => 219,
            SyntaxKind::LESS_PLUGIN => 220,
            SyntaxKind::__LAST => 221,
        }
    }

    /// The `u16` representation of the kind.
    pub fn to_u16(self) -> (r: u16)
        ensures
            r == self.index(),
    {
        match self {
            SyntaxKind::TOMBSTONE => 0,
            SyntaxKind::EOF => 1,
            SyntaxKind::ERROR => 2,
            SyntaxKind::IDENTIFIER => 3,
            SyntaxKind::STRING => 4,
            SyntaxKind::URL => 5,
            SyntaxKind::BAD_STRING => 6,
            SyntaxKind::BAD_URL => 7,
            SyntaxKind::UNRESTRICTED_HASH => 8,
            SyntaxKind::ID_HASH => 9,
            SyntaxKind::NUMBER => 10,
            SyntaxKind::CHARSET => 11,
            SyntaxKind::WHITESPACE => 12,
            SyntaxKind::COMMENT => 13,
            SyntaxKind::UNICODE_RANGE => 14,
            SyntaxKind::FUNCTION => 15,
            SyntaxKind::CDO => 16,
            SyntaxKind::CDC => 17,
            SyntaxKind::SEMICOLON => 18,
            SyntaxKind::COMMA => 19,
            SyntaxKind::EXCLAMATION => 20,
            SyntaxKind::L_PAREN => 21,
            SyntaxKind::R_PAREN => 22,
            SyntaxKind::L_CURLY => 23,
            SyntaxKind::R_CURLY => 24,
            SyntaxKind::L_BRACK => 25,
            SyntaxKind::R_BRACK => 26,
            SyntaxKind::L_ANGLE => 27,
            SyntaxKind::R_ANGLE => 28,
            SyntaxKind::AT => 29,
            SyntaxKind::POUND => 30,
            SyntaxKind::TILDE => 31,
            SyntaxKind::QUESTION => 32,
            SyntaxKind::DOLLAR => 33,
            SyntaxKind::AMP => 34,
            SyntaxKind::PIPE => 35,
            SyntaxKind::PLUS => 36,
            SyntaxKind::STAR => 37,
            SyntaxKind::SLASH => 38,
            SyntaxKind::CARET => 39,
            SyntaxKind::PERCENT => 40,
            SyntaxKind::UNDERSCORE => 41,
            SyntaxKind::DOT => 42,
            SyntaxKind::DOT2 => 43,
            SyntaxKind::DOT3 => 44,
            SyntaxKind::DOT2EQ => 45,
            SyntaxKind::COLON => 46,
            SyntaxKind::COLON2 => 47,
            SyntaxKind::EQ => 48,
            SyntaxKind::EQ2 => 49,
            SyntaxKind::FAT_ARROW => 50,
            SyntaxKind::NEQ => 51,
            SyntaxKind::MINUS => 52,
            SyntaxKind::THIN_ARROW => 53,
            SyntaxKind::LTEQ => 54,
            SyntaxKind::GTEQ => 55,
            SyntaxKind::PLUSEQ => 56,
            SyntaxKind::MINUSEQ => 57,
            SyntaxKind::OPERATOR_DASHMATCH => 58,
            SyntaxKind::OPERATOR_INCLUDES => 59,
            SyntaxKind::OPERATOR_PREFIX => 60,
            SyntaxKind::OPERATOR_SUFFIX => 61,
            SyntaxKind::OPERATOR_SUBSTRING => 62,
            SyntaxKind::PERCENTEQ => 63,
            SyntaxKind::AMP2 => 64,
            SyntaxKind::PIPE2 => 65,
            SyntaxKind::SHL => 66,
            SyntaxKind::SHR => 67,
            SyntaxKind::SHLEQ => 68,
            SyntaxKind::SHREQ => 69,
            SyntaxKind::DIM_UNKNOWN => 70,
            SyntaxKind::DIM_EM => 71,
            SyntaxKind::DIM_EX => 72,
            SyntaxKind::DIM_PX => 73,
            SyntaxKind::DIM_CM => 74,
            SyntaxKind::DIM_MM => 75,
            SyntaxKind::DIM_IN => 76,
            SyntaxKind::DIM_PT => 77,
            SyntaxKind::DIM_PC => 78,
            SyntaxKind::DIM_DEG => 79,
            SyntaxKind::DIM_RAD => 80,
            SyntaxKind::DIM_GRAD => 81,
            SyntaxKind::DIM_MS => 82,
            SyntaxKind::DIM_S => 83,
            SyntaxKind::DIM_HZ => 84,
            SyntaxKind::DIM_KHZ => 85,
            SyntaxKind::DIM_PERCENT => 86,
            SyntaxKind::DIM_FR => 87,
            SyntaxKind::DIM_DPI => 88,
            SyntaxKind::DIM_DPCM => 89,
            SyntaxKind::DIM_CQW => 90,
            SyntaxKind::DIM_CQH => 91,
            SyntaxKind::DIM_CQI => 92,
            SyntaxKind::DIM_CQB => 93,
            SyntaxKind::DIM_CQMIN => 94,
            SyntaxKind::DIM_CQMAX => 95,
            SyntaxKind::ATKW_UNKNOWN => 96,
            SyntaxKind::ATKW_IMPORT => 97,
            SyntaxKind::ATKW_NAMESPACE => 98,
            SyntaxKind::ATKW_FONT_FACE => 99,
            SyntaxKind::ATKW_VIEWPORT => 100,
            SyntaxKind::ATKW__MS_VIEWPORT => 101,
            SyntaxKind::ATKW__O_VIEWPORT => 102,
            SyntaxKind::ATKW_KEYFRAMES => 103,
            SyntaxKind::ATKW__WEBKIT_KEYFRAMES => 104,
            SyntaxKind::ATKW__MOZ_KEYFRAMES => 105,
            SyntaxKind::ATKW__O_KEYFRAMES => 106,
            SyntaxKind::ATKW_PROPERTY => 107,
            SyntaxKind::ATKW_LAYER => 108,
            SyntaxKind::ATKW_SUPPORTS => 109,
            SyntaxKind::ATKW_MEDIA => 110,
            SyntaxKind::ATKW_PAGE => 111,
            SyntaxKind::ATKW__MOZ_DOCUMENT => 112,
            SyntaxKind::ATKW_CONTAINER => 113,
            SyntaxKind::ATKW_MARGIN_AT_RULE => 114,
            SyntaxKind::CXID_NOT => 115,
            SyntaxKind::CXID_AND => 116,
            SyntaxKind::CXID_OR => 117,
            SyntaxKind::CXID_SCREEN => 118,
            SyntaxKind::CXID_ONLY => 119,
            SyntaxKind::CXID_DEEP => 120,
            SyntaxKind::CXID_ATTRIB_I => 121,
            SyntaxKind::CXID_ATTRIB_S => 122,
            SyntaxKind::CXID_AN_PLUS_B_SYNTAX_AN => 123,
            SyntaxKind::CXID_OF => 124,
            SyntaxKind::CXID_IMPORTANT => 125,
            SyntaxKind::CXID_PROGID => 126,
            SyntaxKind::CXID_URLPREFIX => 127,
            SyntaxKind::CXID_VALID_CUSTOM_PROP => 128,
            SyntaxKind::CXHASH_VALID_HEX => 129,
            SyntaxKind::CXFUNC_LAYER => 130,
            SyntaxKind::CXFUNC_SUPPORTS => 131,
            SyntaxKind::CXFUNC_STYLE => 132,
            SyntaxKind::CXFUNC_URL => 133,
            SyntaxKind::CXDIM_AN_PLUS_B => 134,
            SyntaxKind::TODO => 135,
            SyntaxKind::UNDEFINED => 136,
            SyntaxKind::SOURCE_FILE => 137,
            SyntaxKind::RULE_SET => 138,
            SyntaxKind::PAGE => 139,
            SyntaxKind::PAGE_BOX_MARGIN_BOX => 140,
            SyntaxKind::VIEW_PORT => 141,
            SyntaxKind::DOCUMENT => 142,
            SyntaxKind::CUSTOM_PROPERTY_SET => 143,
            SyntaxKind::SUPPORTS => 144,
            SyntaxKind::FONT_FACE => 145,
            SyntaxKind::MEDIA => 146,
            SyntaxKind::LAYER => 147,
            SyntaxKind::KEYFRAME => 148,
            SyntaxKind::KEYFRAME_SELECTOR => 149,
            SyntaxKind::CONTAINER => 150,
            SyntaxKind::PROPERTY_AT_RULE => 151,
            SyntaxKind::UNKNOWN_AT_RULE => 152,
            SyntaxKind::SELECTOR => 153,
            SyntaxKind::SIMPLE_SELECTOR => 154,
            SyntaxKind::SELECTOR_INTERPOLATION => 155,
            SyntaxKind::SELECTOR_COMBINATOR => 156,
            SyntaxKind::SELECTOR_COMBINATOR_PARENT => 157,
            SyntaxKind::SELECTOR_COMBINATOR_SIBLING => 158,
            SyntaxKind::SELECTOR_COMBINATOR_ALL_SIBLINGS => 159,
            SyntaxKind::SELECTOR_COMBINATOR_SHADOW_PIERCING_DESCENDANT => 160,
            SyntaxKind::SELECTOR_CLASS => 161,
            SyntaxKind::SELECTOR_IDENTIFIER => 162,
            SyntaxKind::SELECTOR_ELEMENT_NAME => 163,
            SyntaxKind::SELECTOR_PSEUDO => 164,
            SyntaxKind::SELECTOR_ATTRIBUTE => 165,
            SyntaxKind::ABSTRACT_DECLARATION => 166,
            SyntaxKind::DECLARATION => 167,
            SyntaxKind::DECLARATION_BASIC => 168,
            SyntaxKind::DECLARATION_CUSTOM_PROPERTY => 169,
            SyntaxKind::DECLARATION_XCSS_VARIABLE => 170,
            SyntaxKind::DECLARATIONS => 171,
            SyntaxKind::PROPERTY => 172,
            SyntaxKind::EXPRESSION => 173,
            SyntaxKind::BINARY_EXPRESSION => 174,
            SyntaxKind::TERM => 175,
            SyntaxKind::OPERATOR => 176,
            SyntaxKind::STRING_LITERAL => 177,
            SyntaxKind::URI_LITERAL => 178,
            SyntaxKind::NUMERIC_VALUE => 179,
            SyntaxKind::HEX_COLOR_VALUE => 180,
            SyntaxKind::RATIO_VALUE => 181,
            SyntaxKind::PRIO => 182,
            SyntaxKind::IMPORT => 183,
            SyntaxKind::NAMESPACE => 184,
            SyntaxKind::MEDIA_QUERY => 185,
            SyntaxKind::MEDIA_CONDITION => 186,
            SyntaxKind::MEDIA_FEATURE => 187,
            SyntaxKind::FUNCTION_WITH_ARGS => 188,
            SyntaxKind::FUNCTION_ARGUMENT => 189,
            SyntaxKind::SUPPORTS_CONDITION => 190,
            SyntaxKind::NAMESPACE_PREFIX => 191,
            SyntaxKind::GRID_LINE => 192,
            SyntaxKind::LAYER_NAME_LIST => 193,
            SyntaxKind::LAYER_NAME => 194,
            SyntaxKind::XCSS_EXTENDS_REFERENCE => 195,
            SyntaxKind::XCSS_FUNCTION_PARAMETER => 196,
            SyntaxKind::XCSS_MIXIN_DECLARATION => 197,
            SyntaxKind::XCSS_MIXIN_REFERENCE => 198,
            SyntaxKind::SCSS_NESTED_PROPERTIES => 199,
            SyntaxKind::SCSS_SELECTOR_PLACEHOLDER => 200,
            SyntaxKind::SCSS_DEBUG => 201,
            SyntaxKind::SCSS_IF_STATEMENT => 202,
            SyntaxKind::SCSS_ELSE_STATEMENT => 203,
            SyntaxKind::SCSS_FOR_STATEMENT => 204,
            SyntaxKind::SCSS_EACH_STATEMENT => 205,
            SyntaxKind::SCSS_WHILE_STATEMENT => 206,
            SyntaxKind::SCSS_RETURN_STATEMENT => 207,
            SyntaxKind::SCSS_FUNCTION_DECLARATION => 208,
            SyntaxKind::SCSS_LIST_ENTRY => 209,
            SyntaxKind::SCSS_USE => 210,
            SyntaxKind::SCSS_MODULE => 211,
            SyntaxKind::SCSS_MODULE_CONFIGURATION => 212,
            SyntaxKind::SCSS_FORWARD => 213,
            SyntaxKind::SCSS_FORWARD_VISIBILITY => 214,
            SyntaxKind::SCSS_MIXIN_CONTENT_REFERENCE => 215,
            SyntaxKind::SCSS_MIXIN_CONTENT_DECLARATION => 216,
            SyntaxKind::SCSS_VARIABLE_NAME => 217,
            SyntaxKind::LESS_ESCAPED_VALUE => 218,
            SyntaxKind::LESS_INTERPOLATION => 219,
            SyntaxKind::LESS_PLUGIN => 220,
            SyntaxKind::__LAST => 221,
        }
    }

    /// Whitespace and comments: the tokens the parser never sees.
    pub open spec fn spec_is_trivia(self) -> bool {
        self == SyntaxKind::WHITESPACE || self == SyntaxKind::COMMENT
    }

    pub fn is_trivia(self) -> (r: bool)
        ensures
            r == self.spec_is_trivia(),
    {
        self == SyntaxKind::WHITESPACE || self == SyntaxKind::COMMENT
    }

    /// The dimension kinds, `DIM_UNKNOWN` to `DIM_CQMAX`.
    pub open spec fn spec_is_dimension(self) -> bool {
        SyntaxKind::DIM_UNKNOWN.index() <= self.index() <= SyntaxKind::DIM_CQMAX.index()
    }

    pub fn is_dimension(self) -> (r: bool)
        ensures
            r == self.spec_is_dimension(),
    {
        let i = self.to_u16();
        SyntaxKind::DIM_UNKNOWN.to_u16() <= i && i <= SyntaxKind::DIM_CQMAX.to_u16()
    }

    /// The punctuation kinds, `SEMICOLON` to `SHREQ`.
    pub open spec fn spec_is_punct(self) -> bool {
        SyntaxKind::SEMICOLON.index() <= self.index() <= SyntaxKind::SHREQ.index()
    }

    pub fn is_punct(self) -> (r: bool)
        ensures
            r == self.spec_is_punct(),
    {
        let i = self.to_u16();
        SyntaxKind::SEMICOLON.to_u16() <= i && i <= SyntaxKind::SHREQ.to_u16()
    }

    /// The punctuation kind written as the single character `c`.
    pub open spec fn spec_from_char(c: char) -> Option<SyntaxKind> {
        if c == ';' {
            Some(SyntaxKind::SEMICOLON)
        } else if c == ',' {
            Some(SyntaxKind::COMMA)
        } else if c == '!' {
            Some(SyntaxKind::EXCLAMATION)
        } else if c == '(' {
            Some(SyntaxKind::L_PAREN)
        } else if c == ')' {
            Some(SyntaxKind::R_PAREN)
        } else if c == '{' {
            Some(SyntaxKind::L_CURLY)
        } else if c == '}' {
            Some(SyntaxKind::R_CURLY)
        } else if c == '[' {
            Some(SyntaxKind::L_BRACK)
        } else if c == ']' {
            Some(SyntaxKind::R_BRACK)
        } else if c == '<' {
            Some(SyntaxKind::L_ANGLE)
        } else if c == '>' {
            Some(SyntaxKind::R_ANGLE)
        } else if c == '@' {
            Some(SyntaxKind::AT)
        } else if c == '#' {
            Some(SyntaxKind::POUND)
        } else if c == '~' {
            Some(SyntaxKind::TILDE)
        } else if c == '?' {
            Some(SyntaxKind::QUESTION)
        } else if c == '$' {
            Some(SyntaxKind::DOLLAR)
        } else if c == '&' {
            Some(SyntaxKind::AMP)
        } else if c == '|' {
            Some(SyntaxKind::PIPE)
        } else if c == '+' {
            Some(SyntaxKind::PLUS)
        } else if c == '*' {
            Some(SyntaxKind::STAR)
        } else if c == '/' {
            Some(SyntaxKind::SLASH)
        } else if c == '^' {
            Some(SyntaxKind::CARET)
        } else if c == '%' {
            Some(SyntaxKind::PERCENT)
        } else if c == '_' {
            Some(SyntaxKind::UNDERSCORE)
        } else if c == '.' {
            Some(SyntaxKind::DOT)
        } else if c == ':' {
            Some(SyntaxKind::COLON)
        } else if c == '=' {
            Some(SyntaxKind::EQ)
        } else if c == '-' {
            Some(SyntaxKind::MINUS)
        } else {
            None
        }
    }

    pub fn from_char(c: char) -> (r: Option<SyntaxKind>)
        ensures
            r == SyntaxKind::spec_from_char(c),
    {
        match c {
            ';' => Some(SyntaxKind::SEMICOLON),
            ',' => Some(SyntaxKind::COMMA),
            '!' => Some(SyntaxKind::EXCLAMATION),
            '(' => Some(SyntaxKind::L_PAREN),
            ')' => Some(SyntaxKind::R_PAREN),
            '{' => Some(SyntaxKind::L_CURLY),
            '}' => Some(SyntaxKind::R_CURLY),
            '[' => Some(SyntaxKind::L_BRACK),
            ']' => Some(SyntaxKind::R_BRACK),
            '<' => Some(SyntaxKind::L_ANGLE),
            '>' => Some(SyntaxKind::R_ANGLE),
            '@' => Some(SyntaxKind::AT),
            '#' => Some(SyntaxKind::POUND),
            '~' => Some(SyntaxKind::TILDE),
            '?' => Some(SyntaxKind::QUESTION),
            '$' => Some(SyntaxKind::DOLLAR),
            '&' => Some(SyntaxKind::AMP),
            '|' => Some(SyntaxKind::PIPE),
            '+' => Some(SyntaxKind::PLUS),
            '*' => Some(SyntaxKind::STAR),
            '/' => Some(SyntaxKind::SLASH),
            '^' => Some(SyntaxKind::CARET),
            '%' => Some(SyntaxKind::PERCENT),
            '_' => Some(SyntaxKind::UNDERSCORE),
            '.' => Some(SyntaxKind::DOT),
            ':' => Some(SyntaxKind::COLON),
            '=' => Some(SyntaxKind::EQ),
            '-' => Some(SyntaxKind::MINUS),
            _ => None,
        }
    }
}

} // verus!
