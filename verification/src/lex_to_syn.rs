//! Lexed text: the kinds of the tokens of a text and the byte offsets where they start.
use crate::syntax_kind::SyntaxKind;
use crate::text::{
    blen, bp, cidx, collect_chars, eq_chars, has_suffix, has_suffix_chars, lemma_bp_mono,
    lemma_bp_full, lemma_bp_sub, lemma_bp_zero, lemma_cidx_bp, lemma_cidx_some, lowercase, str_len, str_slice,
    str_to_lowercase,
};
use vstd::prelude::*;

verus! {

/// The kinds of tokens the tokenizer produces.
#[derive(Clone, Copy, PartialEq, Eq, Structural, Debug)]
pub enum TokenKind {
    WhiteSpace,
    Comment,
    Charset,
    String,
    Url,
    Number,
    UnicodeRange,
    BadUrl,
    BadString,
    UnrestrictedHash,
    IdHash,
    Ident,
    CDO,
    CDC,
    Function,
    AtKeyword,
    Dimension,
    Percentage,
    Colon,
    Semicolon,
    Comma,
    OpenParen,
    CloseParen,
    OpenBracket,
    CloseBracket,
    OpenCurly,
    CloseCurly,
    DelimSlash,
    DelimHash,
    DelimPlus,
    DelimHyphenMinus,
    DelimFullStop,
    DelimLessThanSign,
    DelimGreaterThanSign,
    DelimCommercialAt,
    DelimExclamation,
    Unknown,
    DelimUnexpectedSolidus,
    Eof,
}

/// A token as the tokenizer hands it out: its kind and its length in bytes.
#[derive(Clone, Copy, Debug)]
pub struct Token {
    pub kind: TokenKind,
    pub len: u32,
}

/// A diagnostic of the tokenizer, attached to the token it was found in.
#[derive(Clone, Debug)]
pub struct PosedLexerDiagnostic {
    pub token_idx: u32,
    pub diagnostic: String,
}

/// The kind of a lower-cased at-keyword.
pub open spec fn at_keyword_kind(s: Seq<char>) -> SyntaxKind {
    if s =~= seq!['@', 'i', 'm', 'p', 'o', 'r', 't'] {
        SyntaxKind::ATKW_IMPORT
    } else if s =~= seq!['@', 'n', 'a', 'm', 'e', 's', 'p', 'a', 'c', 'e'] {
        SyntaxKind::ATKW_NAMESPACE
    } else if s =~= seq!['@', 'f', 'o', 'n', 't', '-', 'f', 'a', 'c', 'e'] {
        SyntaxKind::ATKW_FONT_FACE
    } else if s =~= seq!['@', 'v', 'i', 'e', 'w', 'p', 'o', 'r', 't'] {
        SyntaxKind::ATKW_VIEWPORT
    } else if s =~= seq!['@', '-', 'm', 's', '-', 'v', 'i', 'e', 'w', 'p', 'o', 'r', 't'] {
        SyntaxKind::ATKW__MS_VIEWPORT
    } else if s =~= seq!['@', '-', 'o', '-', 'v', 'i', 'e', 'w', 'p', 'o', 'r', 't'] {
        SyntaxKind::ATKW__O_VIEWPORT
    } else if s =~= seq!['@', 'k', 'e', 'y', 'f', 'r', 'a', 'm', 'e', 's'] {
        SyntaxKind::ATKW_KEYFRAMES
    } else if s =~= seq!['@', '-', 'w', 'e', 'b', 'k', 'i', 't', '-', 'k', 'e', 'y', 'f', 'r', 'a', 'm', 'e', 's'] {
        SyntaxKind::ATKW__WEBKIT_KEYFRAMES
    } else if s =~= seq!['@', '-', 'm', 'o', 'z', '-', 'k', 'e', 'y', 'f', 'r', 'a', 'm', 'e', 's'] {
        SyntaxKind::ATKW__MOZ_KEYFRAMES
    } else if s =~= seq!['@', '-', 'o', '-', 'k', 'e', 'y', 'f', 'r', 'a', 'm', 'e', 's'] {
        SyntaxKind::ATKW__O_KEYFRAMES
    } else if s =~= seq!['@', 'p', 'r', 'o', 'p', 'e', 'r', 't', 'y'] {
        SyntaxKind::ATKW_PROPERTY
    } else if s =~= seq!['@', 'l', 'a', 'y', 'e', 'r'] {
        SyntaxKind::ATKW_LAYER
    } else if s =~= seq!['@', 's', 'u', 'p', 'p', 'o', 'r', 't', 's'] {
        SyntaxKind::ATKW_SUPPORTS
    } else if s =~= seq!['@', 'm', 'e', 'd', 'i', 'a'] {
        SyntaxKind::ATKW_MEDIA
    } else if s =~= seq!['@', 'p', 'a', 'g', 'e'] {
        SyntaxKind::ATKW_PAGE
    } else if s =~= seq!['@', '-', 'm', 'o', 'z', '-', 'd', 'o', 'c', 'u', 'm', 'e', 'n', 't'] {
        SyntaxKind::ATKW__MOZ_DOCUMENT
    } else if s =~= seq!['@', 'c', 'o', 'n', 't', 'a', 'i', 'n', 'e', 'r'] {
        SyntaxKind::ATKW_CONTAINER
    } else if s =~= seq!['@', 't', 'o', 'p', '-', 'l', 'e', 'f', 't', '-', 'c', 'o', 'r', 'n', 'e', 'r']
        || s =~= seq!['@', 't', 'o', 'p', '-', 'l', 'e', 'f', 't']
        || s =~= seq!['@', 't', 'o', 'p', '-', 'c', 'e', 'n', 't', 'e', 'r']
        || s =~= seq!['@', 't', 'o', 'p', '-', 'r', 'i', 'g', 'h', 't']
        || s =~= seq!['@', 't', 'o', 'p', '-', 'r', 'i', 'g', 'h', 't', '-', 'c', 'o', 'r', 'n', 'e', 'r']
        || s =~= seq!['@', 'b', 'o', 't', 't', 'o', 'm', '-', 'l', 'e', 'f', 't', '-', 'c', 'o', 'r', 'n', 'e', 'r']
        || s =~= seq!['@', 'b', 'o', 't', 't', 'o', 'm', '-', 'l', 'e', 'f', 't']
        || s =~= seq!['@', 'b', 'o', 't', 't', 'o', 'm', '-', 'c', 'e', 'n', 't', 'e', 'r']
        || s =~= seq!['@', 'b', 'o', 't', 't', 'o', 'm', '-', 'r', 'i', 'g', 'h', 't']
        || s =~= seq!['@', 'b', 'o', 't', 't', 'o', 'm', '-', 'r', 'i', 'g', 'h', 't', '-', 'c', 'o', 'r', 'n', 'e', 'r']
        || s =~= seq!['@', 'l', 'e', 'f', 't', '-', 't', 'o', 'p']
        || s =~= seq!['@', 'l', 'e', 'f', 't', '-', 'm', 'i', 'd', 'd', 'l', 'e']
        || s =~= seq!['@', 'l', 'e', 'f', 't', '-', 'b', 'o', 't', 't', 'o', 'm']
        || s =~= seq!['@', 'r', 'i', 'g', 'h', 't', '-', 't', 'o', 'p']
        || s =~= seq!['@', 'r', 'i', 'g', 'h', 't', '-', 'm', 'i', 'd', 'd', 'l', 'e']
        || s =~= seq!['@', 'r', 'i', 'g', 'h', 't', '-', 'b', 'o', 't', 't', 'o', 'm'] {
        SyntaxKind::ATKW_MARGIN_AT_RULE
    } else {
        SyntaxKind::ATKW_UNKNOWN
    }
}

/// The kind of a lower-cased dimension: the first unit in the list that the text ends with.
pub open spec fn dimension_kind(s: Seq<char>) -> SyntaxKind {
    if has_suffix(s, seq!['e', 'm']) {
        SyntaxKind::DIM_EM
    } else if has_suffix(s, seq!['e', 'x']) {
        SyntaxKind::DIM_EX
    } else if has_suffix(s, seq!['p', 'x']) {
        SyntaxKind::DIM_PX
    } else if has_suffix(s, seq!['c', 'm']) {
        SyntaxKind::DIM_CM
    } else if has_suffix(s, seq!['m', 'm']) {
        SyntaxKind::DIM_MM
    } else if has_suffix(s, seq!['i', 'n']) {
        SyntaxKind::DIM_IN
    } else if has_suffix(s, seq!['p', 't']) {
        SyntaxKind::DIM_PT
    } else if has_suffix(s, seq!['p', 'c']) {
        SyntaxKind::DIM_PC
    } else if has_suffix(s, seq!['d', 'e', 'g']) {
        SyntaxKind::DIM_DEG
    } else if has_suffix(s, seq!['r', 'a', 'd']) {
        SyntaxKind::DIM_RAD
    } else if has_suffix(s, seq!['g', 'r', 'a', 'd']) {
        SyntaxKind::DIM_GRAD
    } else if has_suffix(s, seq!['m', 's']) {
        SyntaxKind::DIM_MS
    } else if has_suffix(s, seq!['s']) {
        SyntaxKind::DIM_S
    } else if has_suffix(s, seq!['h', 'z']) {
        SyntaxKind::DIM_HZ
    } else if has_suffix(s, seq!['k', 'h', 'z']) {
        SyntaxKind::DIM_KHZ
    } else if has_suffix(s, seq!['f', 'r']) {
        SyntaxKind::DIM_FR
    } else if has_suffix(s, seq!['d', 'p', 'i']) {
        SyntaxKind::DIM_DPI
    } else if has_suffix(s, seq!['d', 'p', 'c', 'm']) {
        SyntaxKind::DIM_DPCM
    } else if has_suffix(s, seq!['c', 'q', 'w']) {
        SyntaxKind::DIM_CQW
    } else if has_suffix(s, seq!['c', 'q', 'h']) {
        SyntaxKind::DIM_CQH
    } else if has_suffix(s, seq!['c', 'q', 'i']) {
        SyntaxKind::DIM_CQI
    } else if has_suffix(s, seq!['c', 'q', 'b']) {
        SyntaxKind::DIM_CQB
    } else if has_suffix(s, seq!['c', 'q', 'm', 'i', 'n']) {
        SyntaxKind::DIM_CQMIN
    } else if has_suffix(s, seq!['c', 'q', 'm', 'a', 'x']) {
        SyntaxKind::DIM_CQMAX
    } else {
        SyntaxKind::DIM_UNKNOWN
    }
}

/// The kind of a character the tokenizer does not know.
pub open spec fn unknown_kind(s: Seq<char>) -> SyntaxKind {
    if s =~= seq!['='] {
        SyntaxKind::EQ
    } else if s =~= seq!['$'] {
        SyntaxKind::DOLLAR
    } else if s =~= seq!['~'] {
        SyntaxKind::TILDE
    } else if s =~= seq!['|'] {
        SyntaxKind::PIPE
    } else if s =~= seq!['*'] {
        SyntaxKind::STAR
    } else if s =~= seq!['^'] {
        SyntaxKind::CARET
    } else if s =~= seq!['&'] {
        SyntaxKind::AMP
    } else if s =~= seq!['?'] {
        SyntaxKind::QUESTION
    } else {
        SyntaxKind::ERROR
    }
}

fn at_keyword_kind_of(s: &Vec<char>) -> (r: SyntaxKind)
    ensures
        r == at_keyword_kind(s@),
{
    if eq_chars(s, &['@', 'i', 'm', 'p', 'o', 'r', 't']) {
        return SyntaxKind::ATKW_IMPORT;
    }
    if eq_chars(s, &['@', 'n', 'a', 'm', 'e', 's', 'p', 'a', 'c', 'e']) {
        return SyntaxKind::ATKW_NAMESPACE;
    }
    if eq_chars(s, &['@', 'f', 'o', 'n', 't', '-', 'f', 'a', 'c', 'e']) {
        return SyntaxKind::ATKW_FONT_FACE;
    }
    if eq_chars(s, &['@', 'v', 'i', 'e', 'w', 'p', 'o', 'r', 't']) {
        return SyntaxKind::ATKW_VIEWPORT;
    }
    if eq_chars(s, &['@', '-', 'm', 's', '-', 'v', 'i', 'e', 'w', 'p', 'o', 'r', 't']) {
        return SyntaxKind::ATKW__MS_VIEWPORT;
    }
    if eq_chars(s, &['@', '-', 'o', '-', 'v', 'i', 'e', 'w', 'p', 'o', 'r', 't']) {
        return SyntaxKind::ATKW__O_VIEWPORT;
    }
    if eq_chars(s, &['@', 'k', 'e', 'y', 'f', 'r', 'a', 'm', 'e', 's']) {
        return SyntaxKind::ATKW_KEYFRAMES;
    }
    if eq_chars(s, &['@', '-', 'w', 'e', 'b', 'k', 'i', 't', '-', 'k', 'e', 'y', 'f', 'r', 'a', 'm', 'e', 's']) {
        return SyntaxKind::ATKW__WEBKIT_KEYFRAMES;
    }
    if eq_chars(s, &['@', '-', 'm', 'o', 'z', '-', 'k', 'e', 'y', 'f', 'r', 'a', 'm', 'e', 's']) {
        return SyntaxKind::ATKW__MOZ_KEYFRAMES;
    }
    if eq_chars(s, &['@', '-', 'o', '-', 'k', 'e', 'y', 'f', 'r', 'a', 'm', 'e', 's']) {
        return SyntaxKind::ATKW__O_KEYFRAMES;
    }
    if eq_chars(s, &['@', 'p', 'r', 'o', 'p', 'e', 'r', 't', 'y']) {
        return SyntaxKind::ATKW_PROPERTY;
    }
    if eq_chars(s, &['@', 'l', 'a', 'y', 'e', 'r']) {
        return SyntaxKind::ATKW_LAYER;
    }
    if eq_chars(s, &['@', 's', 'u', 'p', 'p', 'o', 'r', 't', 's']) {
        return SyntaxKind::ATKW_SUPPORTS;
    }
    if eq_chars(s, &['@', 'm', 'e', 'd', 'i', 'a']) {
        return SyntaxKind::ATKW_MEDIA;
    }
    if eq_chars(s, &['@', 'p', 'a', 'g', 'e']) {
        return SyntaxKind::ATKW_PAGE;
    }
    if eq_chars(s, &['@', '-', 'm', 'o', 'z', '-', 'd', 'o', 'c', 'u', 'm', 'e', 'n', 't']) {
        return SyntaxKind::ATKW__MOZ_DOCUMENT;
    }
    if eq_chars(s, &['@', 'c', 'o', 'n', 't', 'a', 'i', 'n', 'e', 'r']) {
        return SyntaxKind::ATKW_CONTAINER;
    }
    if eq_chars(s, &['@', 't', 'o', 'p', '-', 'l', 'e', 'f', 't', '-', 'c', 'o', 'r', 'n', 'e', 'r'])
        || eq_chars(s, &['@', 't', 'o', 'p', '-', 'l', 'e', 'f', 't'])
        || eq_chars(s, &['@', 't', 'o', 'p', '-', 'c', 'e', 'n', 't', 'e', 'r'])
        || eq_chars(s, &['@', 't', 'o', 'p', '-', 'r', 'i', 'g', 'h', 't'])
        || eq_chars(s, &['@', 't', 'o', 'p', '-', 'r', 'i', 'g', 'h', 't', '-', 'c', 'o', 'r', 'n', 'e', 'r'])
        || eq_chars(s, &['@', 'b', 'o', 't', 't', 'o', 'm', '-', 'l', 'e', 'f', 't', '-', 'c', 'o', 'r', 'n', 'e', 'r'])
        || eq_chars(s, &['@', 'b', 'o', 't', 't', 'o', 'm', '-', 'l', 'e', 'f', 't'])
        || eq_chars(s, &['@', 'b', 'o', 't', 't', 'o', 'm', '-', 'c', 'e', 'n', 't', 'e', 'r'])
        || eq_chars(s, &['@', 'b', 'o', 't', 't', 'o', 'm', '-', 'r', 'i', 'g', 'h', 't'])
        || eq_chars(s, &['@', 'b', 'o', 't', 't', 'o', 'm', '-', 'r', 'i', 'g', 'h', 't', '-', 'c', 'o', 'r', 'n', 'e', 'r'])
        || eq_chars(s, &['@', 'l', 'e', 'f', 't', '-', 't', 'o', 'p'])
        || eq_chars(s, &['@', 'l', 'e', 'f', 't', '-', 'm', 'i', 'd', 'd', 'l', 'e'])
        || eq_chars(s, &['@', 'l', 'e', 'f', 't', '-', 'b', 'o', 't', 't', 'o', 'm'])
        || eq_chars(s, &['@', 'r', 'i', 'g', 'h', 't', '-', 't', 'o', 'p'])
        || eq_chars(s, &['@', 'r', 'i', 'g', 'h', 't', '-', 'm', 'i', 'd', 'd', 'l', 'e'])
        || eq_chars(s, &['@', 'r', 'i', 'g', 'h', 't', '-', 'b', 'o', 't', 't', 'o', 'm']) {
        return SyntaxKind::ATKW_MARGIN_AT_RULE;
    }
    SyntaxKind::ATKW_UNKNOWN
}

fn dimension_kind_of(s: &Vec<char>) -> (r: SyntaxKind)
    ensures
        r == dimension_kind(s@),
{
    if has_suffix_chars(s, &['e', 'm']) {
        return SyntaxKind::DIM_EM;
    }
    if has_suffix_chars(s, &['e', 'x']) {
        return SyntaxKind::DIM_EX;
    }
    if has_suffix_chars(s, &['p', 'x']) {
        return SyntaxKind::DIM_PX;
    }
    if has_suffix_chars(s, &['c', 'm']) {
        return SyntaxKind::DIM_CM;
    }
    if has_suffix_chars(s, &['m', 'm']) {
        return SyntaxKind::DIM_MM;
    }
    if has_suffix_chars(s, &['i', 'n']) {
        return SyntaxKind::DIM_IN;
    }
    if has_suffix_chars(s, &['p', 't']) {
        return SyntaxKind::DIM_PT;
    }
    if has_suffix_chars(s, &['p', 'c']) {
        return SyntaxKind::DIM_PC;
    }
    if has_suffix_chars(s, &['d', 'e', 'g']) {
        return SyntaxKind::DIM_DEG;
    }
    if has_suffix_chars(s, &['r', 'a', 'd']) {
        return SyntaxKind::DIM_RAD;
    }
    if has_suffix_chars(s, &['g', 'r', 'a', 'd']) {
        return SyntaxKind::DIM_GRAD;
    }
    if has_suffix_chars(s, &['m', 's']) {
        return SyntaxKind::DIM_MS;
    }
    if has_suffix_chars(s, &['s']) {
        return SyntaxKind::DIM_S;
    }
    if has_suffix_chars(s, &['h', 'z']) {
        return SyntaxKind::DIM_HZ;
    }
    if has_suffix_chars(s, &['k', 'h', 'z']) {
        return SyntaxKind::DIM_KHZ;
    }
    if has_suffix_chars(s, &['f', 'r']) {
        return SyntaxKind::DIM_FR;
    }
    if has_suffix_chars(s, &['d', 'p', 'i']) {
        return SyntaxKind::DIM_DPI;
    }
    if has_suffix_chars(s, &['d', 'p', 'c', 'm']) {
        return SyntaxKind::DIM_DPCM;
    }
    if has_suffix_chars(s, &['c', 'q', 'w']) {
        return SyntaxKind::DIM_CQW;
    }
    if has_suffix_chars(s, &['c', 'q', 'h']) {
        return SyntaxKind::DIM_CQH;
    }
    if has_suffix_chars(s, &['c', 'q', 'i']) {
        return SyntaxKind::DIM_CQI;
    }
    if has_suffix_chars(s, &['c', 'q', 'b']) {
        return SyntaxKind::DIM_CQB;
    }
    if has_suffix_chars(s, &['c', 'q', 'm', 'i', 'n']) {
        return SyntaxKind::DIM_CQMIN;
    }
    if has_suffix_chars(s, &['c', 'q', 'm', 'a', 'x']) {
        return SyntaxKind::DIM_CQMAX;
    }
    SyntaxKind::DIM_UNKNOWN
}

fn unknown_kind_of(s: &Vec<char>) -> (r: SyntaxKind)
    ensures
        r == unknown_kind(s@),
{
    if eq_chars(s, &['=']) {
        return SyntaxKind::EQ;
    }
    if eq_chars(s, &['$']) {
        return SyntaxKind::DOLLAR;
    }
    if eq_chars(s, &['~']) {
        return SyntaxKind::TILDE;
    }
    if eq_chars(s, &['|']) {
        return SyntaxKind::PIPE;
    }
    if eq_chars(s, &['*']) {
        return SyntaxKind::STAR;
    }
    if eq_chars(s, &['^']) {
        return SyntaxKind::CARET;
    }
    if eq_chars(s, &['&']) {
        return SyntaxKind::AMP;
    }
    if eq_chars(s, &['?']) {
        return SyntaxKind::QUESTION;
    }
    SyntaxKind::ERROR
}

/// The syntax kind of a token of kind `kind` whose text is `text`.
pub open spec fn token_syntax_kind(kind: TokenKind, text: Seq<char>) -> SyntaxKind {
    match kind {
        TokenKind::WhiteSpace => SyntaxKind::WHITESPACE,
        TokenKind::Comment => SyntaxKind::COMMENT,
        TokenKind::Charset => SyntaxKind::CHARSET,
        TokenKind::String => SyntaxKind::STRING,
        TokenKind::Url => SyntaxKind::URL,
        TokenKind::Number => SyntaxKind::NUMBER,
        TokenKind::UnicodeRange => SyntaxKind::UNICODE_RANGE,
        TokenKind::BadUrl => SyntaxKind::BAD_URL,
        TokenKind::BadString => SyntaxKind::BAD_STRING,
        TokenKind::UnrestrictedHash => SyntaxKind::UNRESTRICTED_HASH,
        TokenKind::IdHash => SyntaxKind::ID_HASH,
        TokenKind::Ident => SyntaxKind::IDENTIFIER,
        TokenKind::CDO => SyntaxKind::CDO,
        TokenKind::CDC => SyntaxKind::CDC,
        TokenKind::Function => SyntaxKind::FUNCTION,
        TokenKind::AtKeyword => at_keyword_kind(lowercase(text)),
        TokenKind::Dimension => dimension_kind(lowercase(text)),
        TokenKind::Percentage => SyntaxKind::DIM_PERCENT,
        TokenKind::Colon => SyntaxKind::COLON,
        TokenKind::Semicolon => SyntaxKind::SEMICOLON,
        TokenKind::Comma => SyntaxKind::COMMA,
        TokenKind::OpenParen => SyntaxKind::L_PAREN,
        TokenKind::CloseParen => SyntaxKind::R_PAREN,
        TokenKind::OpenBracket => SyntaxKind::L_BRACK,
        TokenKind::CloseBracket => SyntaxKind::R_BRACK,
        TokenKind::OpenCurly => SyntaxKind::L_CURLY,
        TokenKind::CloseCurly => SyntaxKind::R_CURLY,
        TokenKind::DelimSlash => SyntaxKind::SLASH,
        TokenKind::DelimHash => SyntaxKind::POUND,
        TokenKind::DelimPlus => SyntaxKind::PLUS,
        TokenKind::DelimHyphenMinus => SyntaxKind::MINUS,
        TokenKind::DelimFullStop => SyntaxKind::DOT,
        TokenKind::DelimLessThanSign => SyntaxKind::L_ANGLE,
        TokenKind::DelimGreaterThanSign => SyntaxKind::R_ANGLE,
        TokenKind::DelimCommercialAt => SyntaxKind::AT,
        TokenKind::DelimExclamation => SyntaxKind::EXCLAMATION,
        TokenKind::Unknown => unknown_kind(text),
        TokenKind::DelimUnexpectedSolidus => SyntaxKind::ERROR,
        TokenKind::Eof => SyntaxKind::EOF,
    }
}

/// Byte offset where token `i` starts: the sum of the lengths of the tokens before it.
pub open spec fn token_offset(tokens: Seq<Token>, i: int) -> nat
    decreases i,
{
    if i <= 0 || i > tokens.len() {
        0
    } else {
        token_offset(tokens, i - 1) + tokens[i - 1].len as nat
    }
}

/// Whether the diagnostics are ordered by token index.
pub open spec fn diagnostics_sorted(d: Seq<PosedLexerDiagnostic>) -> bool {
    forall|j: int, k: int| 0 <= j <= k < d.len() ==> d[j].token_idx <= d[k].token_idx
}

/// A text cut into tokens: the kind of each token and where it starts, in bytes
/// and (as a proof-only record) in characters. The last token is an end-of-file
/// marker that starts at the end of the last real token.
pub struct LexedStr<'a> {
    text: &'a str,
    kind: Vec<SyntaxKind>,
    start: Vec<u32>,
    error: Vec<PosedLexerDiagnostic>,
    char_start: Ghost<Seq<int>>,
}

impl<'a> LexedStr<'a> {
    /// The text.
    pub closed spec fn source(self) -> Seq<char> {
        self.text@
    }

    /// The kinds of all tokens, the end-of-file marker included.
    pub closed spec fn kinds(self) -> Seq<SyntaxKind> {
        self.kind@
    }

    /// The byte offset where each token starts.
    pub closed spec fn starts(self) -> Seq<u32> {
        self.start@
    }

    /// The character index where each token starts.
    pub closed spec fn char_starts(self) -> Seq<int> {
        self.char_start@
    }

    /// The diagnostics of the tokenizer.
    pub closed spec fn diagnostics(self) -> Seq<PosedLexerDiagnostic> {
        self.error@
    }

    /// The starts lie on character boundaries of the text, in order, and the text
    /// is short enough for its byte offsets to fit a `u32`.
    pub open spec fn tiled(self) -> bool {
        &&& blen(self.source()) <= u32::MAX
        &&& self.starts().len() == self.kinds().len()
        &&& self.char_starts().len() == self.kinds().len()
        &&& forall|j: int|
            0 <= j < self.kinds().len() ==> 0 <= #[trigger] self.char_starts()[j]
                <= self.source().len()
        &&& forall|j: int, k: int|
            0 <= j <= k < self.kinds().len() ==> #[trigger] self.char_starts()[j]
                <= #[trigger] self.char_starts()[k]
        &&& forall|j: int|
            0 <= j < self.kinds().len() ==> #[trigger] self.starts()[j] == bp(
                self.source(),
                self.char_starts()[j],
            )
    }

    /// A finished lexed text: tiled, with the end-of-file marker in place.
    pub open spec fn wf(self) -> bool {
        self.tiled() && self.kinds().len() >= 1
    }

    /// Number of tokens, the end-of-file marker not counted.
    pub open spec fn token_count(self) -> nat {
        (self.kinds().len() - 1) as nat
    }

    /// The text of tokens `lo` to `hi` (exclusive).
    pub open spec fn piece(self, lo: int, hi: int) -> Seq<char> {
        self.source().subrange(self.char_starts()[lo], self.char_starts()[hi])
    }

    /// Cuts `text` into `tokens`, the lengths of which the tokenizer gave, and
    /// closes it with the end-of-file marker.
    pub fn from_tokens(
        text: &'a str,
        tokens: &[Token],
        diagnostics: Vec<PosedLexerDiagnostic>,
    ) -> (r: LexedStr<'a>)
        requires
            blen(text@) <= u32::MAX,
            forall|i: int|
                0 <= i <= tokens@.len() ==> (#[trigger] cidx(text@, token_offset(tokens@, i) as int))
                    is Some,
        ensures
            r.wf(),
            r.source() == text@,
            r.token_count() == tokens@.len(),
            r.kinds().last() == SyntaxKind::EOF,
            forall|i: int|
                0 <= i <= tokens@.len() ==> #[trigger] r.starts()[i] == token_offset(tokens@, i),
            forall|i: int|
                0 <= i < tokens@.len() ==> #[trigger] r.kinds()[i] == token_syntax_kind(
                    tokens@[i].kind,
                    r.piece(i, i + 1),
                ),
            r.diagnostics() == diagnostics@,
    {
        let mut conv = Converter::new(text);
        let mut i: usize = 0;
        proof {
            lemma_bp_zero(text@);
        }
        while i < tokens.len()
            invariant
                blen(text@) <= u32::MAX,
                forall|i: int|
                    0 <= i <= tokens@.len() ==> (#[trigger] cidx(
                        text@,
                        token_offset(tokens@, i) as int,
                    )) is Some,
                conv.wf(),
                conv.res.text@ == text@,
                i <= tokens@.len(),
                conv.res.kind@.len() == i,
                conv.offset == token_offset(tokens@, i as int),
                conv.pos@ == cidx(text@, token_offset(tokens@, i as int) as int)->0,
                forall|j: int| 0 <= j < i ==> #[trigger] conv.res.start@[j] == token_offset(tokens@, j),
                forall|j: int|
                    0 <= j < i ==> #[trigger] conv.res.char_start@[j] == cidx(
                        text@,
                        token_offset(tokens@, j) as int,
                    )->0,
                forall|j: int|
                    0 <= j < i ==> #[trigger] conv.res.kind@[j] == token_syntax_kind(
                        tokens@[j].kind,
                        text@.subrange(
                            cidx(text@, token_offset(tokens@, j) as int)->0,
                            cidx(text@, token_offset(tokens@, j + 1) as int)->0,
                        ),
                    ),
            decreases tokens@.len() - i,
        {
            let len = tokens[i].len as usize;
            let ghost b0 = token_offset(tokens@, i as int) as int;
            let ghost b1 = token_offset(tokens@, i + 1) as int;
            proof {
                assert(cidx(text@, b0) is Some);
                assert(cidx(text@, b1) is Some);
                lemma_cidx_some(text@, b0);
                lemma_cidx_some(text@, b1);
                lemma_bp_full_bound(text@, cidx(text@, b1)->0);
                let c0 = cidx(text@, b0)->0;
                let c1 = cidx(text@, b1)->0;
                if c1 < c0 {
                    lemma_bp_mono(text@, c1, c0);
                }
            }
            let token_text = str_slice(text, conv.offset, conv.offset + len);
            conv.extend_token(tokens[i].kind, token_text);
            proof {
                let c1 = cidx(text@, b1)->0;
                lemma_cidx_some(text@, b1);
                lemma_cidx_bp(text@, conv.pos@);
            }
            i += 1;
        }
        let ghost cs = conv.res.char_start@;
        let ghost pos = conv.pos@;
        let r = conv.finalize_with_eof_and_errs(diagnostics);
        proof {
            assert forall|j: int| 0 <= j < tokens@.len() implies #[trigger] r.kinds()[j]
                == token_syntax_kind(tokens@[j].kind, r.piece(j, j + 1)) by {
                assert(cs[j] == cidx(text@, token_offset(tokens@, j) as int)->0);
                assert(r.char_starts()[j] == cs[j]);
                if j + 1 < tokens@.len() {
                    assert(cs[j + 1] == cidx(text@, token_offset(tokens@, j + 1) as int)->0);
                    assert(r.char_starts()[j + 1] == cs[j + 1]);
                } else {
                    assert(r.char_starts()[j + 1] == pos);
                }
            }
        }
        r
    }

    /// The kind of `text` when the tokenizer made exactly one token of all of it
    /// (`tokens`, with the tokenizer's `diagnostics`), and the messages of those
    /// diagnostics; `None` for an empty text or any other tokenization.
    pub fn single_token(
        text: &'a str,
        tokens: &[Token],
        diagnostics: Vec<PosedLexerDiagnostic>,
    ) -> (r: Option<(SyntaxKind, Vec<String>)>)
        ensures
            r is Some <==> (text@.len() > 0 && tokens@.len() == 1 && tokens@[0].len == blen(text@)),
            r matches Some((kind, messages)) ==> {
                &&& kind == token_syntax_kind(tokens@[0].kind, text@)
                &&& messages@.len() == diagnostics@.len()
                &&& forall|i: int|
                    0 <= i < diagnostics@.len() ==> #[trigger] messages@[i]@
                        == diagnostics@[i].diagnostic@
            },
    {
        let text_len = str_len(text);
        proof {
            lemma_bp_zero(text@);
            lemma_bp_full(text@);
            lemma_bp_mono(text@, 0, text@.len() as int);
        }
        if text_len == 0 {
            return None;
        }
        if tokens.len() != 1 {
            return None;
        }
        let token = tokens[0];
        if token.len as usize != text_len {
            return None;
        }
        let mut conv = Converter::new(text);
        proof {
            lemma_bp_zero(text@);
            assert(text@.subrange(0, text@.len() as int) =~= text@);
        }
        conv.extend_token(token.kind, text);
        let kind = conv.res.kind[0];
        let mut messages: Vec<String> = Vec::new();
        let mut i: usize = 0;
        while i < diagnostics.len()
            invariant
                i <= diagnostics@.len(),
                messages@.len() == i,
                forall|j: int| 0 <= j < i ==> #[trigger] messages@[j]@ == diagnostics@[j].diagnostic@,
            decreases diagnostics@.len() - i,
        {
            messages.push(diagnostics[i].diagnostic.clone());
            i += 1;
        }
        Some((kind, messages))
    }

    /// The text.
    pub fn as_str(&self) -> (r: &str)
        ensures
            r@ == self.source(),
    {
        self.text
    }

    /// Number of tokens, the end-of-file marker not counted.
    pub fn len(&self) -> (r: usize)
        requires
            self.wf(),
        ensures
            r == self.token_count(),
    {
        self.kind.len() - 1
    }

    /// Whether there is no token but the end-of-file marker.
    pub fn is_empty(&self) -> (r: bool)
        requires
            self.wf(),
        ensures
            r == (self.token_count() == 0),
    {
        self.len() == 0
    }

    /// The kind of token `i`.
    pub fn kind(&self, i: usize) -> (r: SyntaxKind)
        requires
            self.wf(),
            i < self.token_count(),
        ensures
            r == self.kinds()[i as int],
    {
        self.kind[i]
    }

    /// The text of token `i`.
    pub fn text(&self, i: usize) -> (r: &str)
        requires
            self.wf(),
            i < self.token_count(),
        ensures
            r@ == self.piece(i as int, i + 1),
    {
        let n = self.kind.len();
        self.range_text(i..i + 1)
    }

    /// The text of the tokens in `r`.
    pub fn range_text(&self, r: std::ops::Range<usize>) -> (s: &str)
        requires
            self.wf(),
            r.start < r.end <= self.token_count(),
        ensures
            s@ == self.piece(r.start as int, r.end as int),
    {
        let lo = self.start[r.start] as usize;
        let hi = self.start[r.end] as usize;
        proof {
            let t = self.text@;
            lemma_cidx_bp(t, self.char_start@[r.start as int]);
            lemma_cidx_bp(t, self.char_start@[r.end as int]);
            lemma_bp_mono(t, self.char_start@[r.start as int], self.char_start@[r.end as int]);
        }
        str_slice(self.text, lo, hi)
    }

    /// The byte range of token `i`.
    pub fn text_range(&self, i: usize) -> (r: std::ops::Range<usize>)
        requires
            self.wf(),
            i < self.token_count(),
        ensures
            r.start == self.starts()[i as int],
            r.end == self.starts()[i + 1],
            r.start <= r.end,
    {
        let n = self.kind.len();
        let lo = self.start[i] as usize;
        let hi = self.start[i + 1] as usize;
        proof {
            lemma_bp_mono(self.text@, self.char_start@[i as int], self.char_start@[i + 1]);
        }
        lo..hi
    }

    /// The byte offset where token `i` starts; `i` may be the end-of-file marker.
    pub fn text_start(&self, i: usize) -> (r: usize)
        requires
            self.wf(),
            i <= self.token_count(),
        ensures
            r == self.starts()[i as int],
    {
        self.start[i] as usize
    }

    /// The length in bytes of token `i`.
    pub fn text_len(&self, i: usize) -> (r: usize)
        requires
            self.wf(),
            i < self.token_count(),
        ensures
            r == self.starts()[i + 1] - self.starts()[i as int],
            r == blen(self.piece(i as int, i + 1)),
    {
        let r = self.text_range(i);
        proof {
            lemma_bp_sub(self.text@, self.char_start@[i as int], self.char_start@[i + 1]);
        }
        r.end - r.start
    }

    /// The diagnostic attached to token `i`, found by binary search on the token
    /// indices of the diagnostics (which the tokenizer hands out in order).
    pub fn error(&self, i: usize) -> (r: Option<String>)
        requires
            self.wf(),
            i < self.token_count(),
        ensures
            r matches Some(m) ==> exists|j: int|
                0 <= j < self.diagnostics().len() && #[trigger] self.diagnostics()[j].token_idx == (
                i as int % 0x1_0000_0000) && self.diagnostics()[j].diagnostic@ == m@,
            diagnostics_sorted(self.diagnostics()) ==> (r is None <==> forall|j: int|
                0 <= j < self.diagnostics().len() ==> #[trigger] self.diagnostics()[j].token_idx
                    != (i as int % 0x1_0000_0000)),
    {
        let wide: u64 = (i as u64) % 0x1_0000_0000u64;
        let key: u32 = wide as u32;
        assert(key == i as int % 0x1_0000_0000);
        let mut lo: usize = 0;
        let mut hi: usize = self.error.len();
        while lo < hi
            invariant
                lo <= hi <= self.error@.len(),
                key == i as int % 0x1_0000_0000,
                diagnostics_sorted(self.error@) ==> forall|j: int|
                    0 <= j < self.error@.len() && #[trigger] self.error@[j].token_idx == key ==> lo
                        <= j < hi,
            decreases hi - lo,
        {
            let mid = lo + (hi - lo) / 2;
            let t = self.error[mid].token_idx;
            if t == key {
                let d = self.error[mid].diagnostic.clone();
                proof {
                    assert(self.diagnostics()[mid as int].token_idx == key);
                    assert(d@ == self.diagnostics()[mid as int].diagnostic@);
                }
                return Some(d);
            } else if t < key {
                lo = mid + 1;
            } else {
                hi = mid;
            }
        }
        None
    }

    /// All diagnostics, each with the index of its token.
    pub fn errors(&self) -> (r: Vec<(usize, String)>)
        ensures
            r@.len() == self.diagnostics().len(),
            forall|j: int|
                0 <= j < r@.len() ==> #[trigger] r@[j].0 == self.diagnostics()[j].token_idx
                    && r@[j].1@ == self.diagnostics()[j].diagnostic@,
    {
        let mut r: Vec<(usize, String)> = Vec::new();
        let mut j: usize = 0;
        while j < self.error.len()
            invariant
                j <= self.error@.len(),
                r@.len() == j,
                forall|k: int|
                    0 <= k < j ==> #[trigger] r@[k].0 == self.error@[k].token_idx && r@[k].1@
                        == self.error@[k].diagnostic@,
            decreases self.error@.len() - j,
        {
            r.push((self.error[j].token_idx as usize, self.error[j].diagnostic.clone()));
            j += 1;
        }
        r
    }

    fn push(&mut self, kind: SyntaxKind, offset: usize, Ghost(c): Ghost<int>)
        requires
            old(self).tiled(),
            0 <= c <= old(self).source().len(),
            offset == bp(old(self).source(), c),
            forall|j: int| 0 <= j < old(self).kinds().len() ==> #[trigger] old(self).char_starts()[j] <= c,
        ensures
            final(self).tiled(),
            final(self).source() == old(self).source(),
            final(self).diagnostics() == old(self).diagnostics(),
            final(self).kinds() == old(self).kinds().push(kind),
            final(self).starts() == old(self).starts().push(offset as u32),
            final(self).char_starts() == old(self).char_starts().push(c),
    {
        proof {
            lemma_bp_mono(self.text@, c, self.text@.len() as int);
            crate::text::lemma_bp_full(self.text@);
        }
        self.kind.push(kind);
        self.start.push(offset as u32);
        self.char_start = Ghost(self.char_start@.push(c));
    }
}

proof fn lemma_bp_full_bound(s: Seq<char>, c: int)
    requires
        0 <= c <= s.len(),
    ensures
        bp(s, c) <= blen(s),
{
    lemma_bp_mono(s, c, s.len() as int);
    crate::text::lemma_bp_full(s);
}

/// Builds a lexed text token by token.
struct Converter<'a> {
    res: LexedStr<'a>,
    offset: usize,
    pos: Ghost<int>,
}

impl<'a> Converter<'a> {
    /// The tokens so far tile the text up to `offset`, which lies on the character
    /// boundary `pos`.
    spec fn wf(self) -> bool {
        &&& self.res.tiled()
        &&& 0 <= self.pos@ <= self.res.text@.len()
        &&& self.offset == bp(self.res.text@, self.pos@)
        &&& forall|j: int| 0 <= j < self.res.kind@.len() ==> #[trigger] self.res.char_start@[j] <= self.pos@
    }

    fn new(text: &'a str) -> (r: Converter<'a>)
        requires
            blen(text@) <= u32::MAX,
        ensures
            r.wf(),
            r.res.text@ == text@,
            r.res.kind@.len() == 0,
            r.res.error@.len() == 0,
            r.pos@ == 0,
            r.offset == 0,
    {
        proof {
            lemma_bp_zero(text@);
        }
        Converter {
            res: LexedStr {
                text,
                kind: Vec::new(),
                start: Vec::new(),
                error: Vec::new(),
                char_start: Ghost(Seq::empty()),
            },
            offset: 0,
            pos: Ghost(0),
        }
    }

    fn finalize_with_eof_and_errs(self, diagnostics: Vec<PosedLexerDiagnostic>) -> (r: LexedStr<'a>)
        requires
            self.wf(),
        ensures
            r.wf(),
            r.source() == self.res.text@,
            r.kinds() == self.res.kind@.push(SyntaxKind::EOF),
            r.starts() == self.res.start@.push(self.offset as u32),
            r.char_starts() == self.res.char_start@.push(self.pos@),
            r.diagnostics() == diagnostics@,
    {
        let mut conv = self;
        let offset = conv.offset;
        let ghost pos = conv.pos@;
        conv.res.push(SyntaxKind::EOF, offset, Ghost(pos));
        conv.res.error = diagnostics;
        conv.res
    }

    fn push(&mut self, kind: SyntaxKind, len: usize, Ghost(next): Ghost<int>)
        requires
            old(self).wf(),
            old(self).pos@ <= next <= old(self).res.text@.len(),
            bp(old(self).res.text@, next) == old(self).offset + len,
        ensures
            final(self).wf(),
            final(self).res.text@ == old(self).res.text@,
            final(self).res.error@ == old(self).res.error@,
            final(self).res.kind@ == old(self).res.kind@.push(kind),
            final(self).res.start@ == old(self).res.start@.push(old(self).offset as u32),
            final(self).res.char_start@ == old(self).res.char_start@.push(old(self).pos@),
            final(self).pos@ == next,
            final(self).offset == old(self).offset + len,
    {
        let offset = self.offset;
        let ghost pos = self.pos@;
        self.res.push(kind, offset, Ghost(pos));
        proof {
            lemma_bp_full_bound(self.res.text@, next);
        }
        self.offset = offset + len;
        self.pos = Ghost(next);
    }

    /// Appends the next token, of kind `kind`, whose text `token_text` follows
    /// the tokens so far.
    fn extend_token(&mut self, kind: TokenKind, token_text: &str)
        requires
            old(self).wf(),
            old(self).pos@ + token_text@.len() <= old(self).res.text@.len(),
            token_text@ == old(self).res.text@.subrange(
                old(self).pos@,
                old(self).pos@ + token_text@.len(),
            ),
        ensures
            final(self).wf(),
            final(self).res.text@ == old(self).res.text@,
            final(self).res.error@ == old(self).res.error@,
            final(self).res.kind@ == old(self).res.kind@.push(
                token_syntax_kind(kind, token_text@),
            ),
            final(self).res.start@ == old(self).res.start@.push(old(self).offset as u32),
            final(self).res.char_start@ == old(self).res.char_start@.push(old(self).pos@),
            final(self).pos@ == old(self).pos@ + token_text@.len(),
    {
        let syntax_kind = match kind {
            TokenKind::WhiteSpace => SyntaxKind::WHITESPACE,
            TokenKind::Comment => SyntaxKind::COMMENT,
            TokenKind::Charset => SyntaxKind::CHARSET,
            TokenKind::String => SyntaxKind::STRING,
            TokenKind::Url => SyntaxKind::URL,
            TokenKind::Number => SyntaxKind::NUMBER,
            TokenKind::UnicodeRange => SyntaxKind::UNICODE_RANGE,
            TokenKind::BadUrl => SyntaxKind::BAD_URL,
            TokenKind::BadString => SyntaxKind::BAD_STRING,
            TokenKind::UnrestrictedHash => SyntaxKind::UNRESTRICTED_HASH,
            TokenKind::IdHash => SyntaxKind::ID_HASH,
            TokenKind::Ident => SyntaxKind::IDENTIFIER,
            TokenKind::CDO => SyntaxKind::CDO,
            TokenKind::CDC => SyntaxKind::CDC,
            TokenKind::Function => SyntaxKind::FUNCTION,
            TokenKind::AtKeyword => {
                let lower = str_to_lowercase(token_text);
                let v = collect_chars(lower.as_str());
                at_keyword_kind_of(&v)
            },
            TokenKind::Dimension => {
                let lower = str_to_lowercase(token_text);
                let v = collect_chars(lower.as_str());
                dimension_kind_of(&v)
            },
            TokenKind::Percentage => SyntaxKind::DIM_PERCENT,
            TokenKind::Colon => SyntaxKind::COLON,
            TokenKind::Semicolon => SyntaxKind::SEMICOLON,
            TokenKind::Comma => SyntaxKind::COMMA,
            TokenKind::OpenParen => SyntaxKind::L_PAREN,
            TokenKind::CloseParen => SyntaxKind::R_PAREN,
            TokenKind::OpenBracket => SyntaxKind::L_BRACK,
            TokenKind::CloseBracket => SyntaxKind::R_BRACK,
            TokenKind::OpenCurly => SyntaxKind::L_CURLY,
            TokenKind::CloseCurly => SyntaxKind::R_CURLY,
            TokenKind::DelimSlash => SyntaxKind::SLASH,
            TokenKind::DelimHash => SyntaxKind::POUND,
            TokenKind::DelimPlus => SyntaxKind::PLUS,
            TokenKind::DelimHyphenMinus => SyntaxKind::MINUS,
            TokenKind::DelimFullStop => SyntaxKind::DOT,
            TokenKind::DelimLessThanSign => SyntaxKind::L_ANGLE,
            TokenKind::DelimGreaterThanSign => SyntaxKind::R_ANGLE,
            TokenKind::DelimCommercialAt => SyntaxKind::AT,
            TokenKind::DelimExclamation => SyntaxKind::EXCLAMATION,
            TokenKind::Unknown => {
                let v = collect_chars(token_text);
                unknown_kind_of(&v)
            },
            TokenKind::DelimUnexpectedSolidus => SyntaxKind::ERROR,
            TokenKind::Eof => SyntaxKind::EOF,
        };
        let len = str_len(token_text);
        proof {
            let t = self.res.text@;
            let p = self.pos@;
            lemma_bp_sub(t, p, p + token_text@.len());
        }
        self.push(syntax_kind, len, Ghost(self.pos@ + token_text@.len()));
    }
}

/// The text of a run of tokens is the text of its first part followed by that of
/// the rest.
pub proof fn lemma_piece_concat(l: LexedStr, lo: int, mid: int, hi: int)
    requires
        l.wf(),
        0 <= lo <= mid <= hi < l.kinds().len(),
    ensures
        l.piece(lo, mid) + l.piece(mid, hi) == l.piece(lo, hi),
{
    let cs = l.char_starts();
    assert(cs[lo] <= cs[mid]);
    assert(cs[mid] <= cs[hi]);
    assert(0 <= cs[lo]);
    assert(cs[hi] <= l.source().len());
    assert(l.piece(lo, mid) + l.piece(mid, hi) =~= l.piece(lo, hi));
}


/// The characters of a suffix are the last characters of the text.
pub proof fn lemma_suffix_chars(s: Seq<char>, u: Seq<char>)
    requires
        has_suffix(s, u),
    ensures
        forall|j: int| 0 <= j < u.len() ==> #[trigger] u[j] == s[s.len() - u.len() + j],
{
    assert forall|j: int| 0 <= j < u.len() implies #[trigger] u[j] == s[s.len() - u.len() + j] by {
        assert(s.subrange(s.len() - u.len(), s.len() as int)[j] == u[j]);
    }
}

/// The kind of a lower-cased dimension is given by the unit it ends with: each unit of
/// the list has its own kind (`s` when it is not the end of `ms`), except that `grad`, `khz`, `dpcm` and `cqmin` end with
/// the units `rad`, `hz`, `cm` and `in`, which come first and decide; a dimension is of
/// unknown kind exactly when it ends with no unit of the list.
#[verifier::rlimit(40)]
pub proof fn law_dimension_units(s: Seq<char>)
    ensures
        has_suffix(s, seq!['e', 'm']) ==> dimension_kind(s) == SyntaxKind::DIM_EM,
        has_suffix(s, seq!['e', 'x']) ==> dimension_kind(s) == SyntaxKind::DIM_EX,
        has_suffix(s, seq!['p', 'x']) ==> dimension_kind(s) == SyntaxKind::DIM_PX,
        has_suffix(s, seq!['c', 'm']) ==> dimension_kind(s) == SyntaxKind::DIM_CM,
        has_suffix(s, seq!['m', 'm']) ==> dimension_kind(s) == SyntaxKind::DIM_MM,
        has_suffix(s, seq!['i', 'n']) ==> dimension_kind(s) == SyntaxKind::DIM_IN,
        has_suffix(s, seq!['p', 't']) ==> dimension_kind(s) == SyntaxKind::DIM_PT,
        has_suffix(s, seq!['p', 'c']) ==> dimension_kind(s) == SyntaxKind::DIM_PC,
        has_suffix(s, seq!['d', 'e', 'g']) ==> dimension_kind(s) == SyntaxKind::DIM_DEG,
        has_suffix(s, seq!['r', 'a', 'd']) ==> dimension_kind(s) == SyntaxKind::DIM_RAD,
        has_suffix(s, seq!['g', 'r', 'a', 'd']) ==> dimension_kind(s) == SyntaxKind::DIM_RAD,
        has_suffix(s, seq!['m', 's']) ==> dimension_kind(s) == SyntaxKind::DIM_MS,
        has_suffix(s, seq!['s']) && !has_suffix(s, seq!['m', 's']) ==> dimension_kind(s) == SyntaxKind::DIM_S,
        has_suffix(s, seq!['h', 'z']) ==> dimension_kind(s) == SyntaxKind::DIM_HZ,
        has_suffix(s, seq!['k', 'h', 'z']) ==> dimension_kind(s) == SyntaxKind::DIM_HZ,
        has_suffix(s, seq!['f', 'r']) ==> dimension_kind(s) == SyntaxKind::DIM_FR,
        has_suffix(s, seq!['d', 'p', 'i']) ==> dimension_kind(s) == SyntaxKind::DIM_DPI,
        has_suffix(s, seq!['d', 'p', 'c', 'm']) ==> dimension_kind(s) == SyntaxKind::DIM_CM,
        has_suffix(s, seq!['c', 'q', 'w']) ==> dimension_kind(s) == SyntaxKind::DIM_CQW,
        has_suffix(s, seq!['c', 'q', 'h']) ==> dimension_kind(s) == SyntaxKind::DIM_CQH,
        has_suffix(s, seq!['c', 'q', 'i']) ==> dimension_kind(s) == SyntaxKind::DIM_CQI,
        has_suffix(s, seq!['c', 'q', 'b']) ==> dimension_kind(s) == SyntaxKind::DIM_CQB,
        has_suffix(s, seq!['c', 'q', 'm', 'i', 'n']) ==> dimension_kind(s) == SyntaxKind::DIM_IN,
        has_suffix(s, seq!['c', 'q', 'm', 'a', 'x']) ==> dimension_kind(s) == SyntaxKind::DIM_CQMAX,
        dimension_kind(s) == SyntaxKind::DIM_UNKNOWN <==> !has_suffix(s, seq!['e', 'm']) && !has_suffix(s, seq!['e', 'x']) && !has_suffix(s, seq!['p', 'x']) && !has_suffix(s, seq!['c', 'm']) && !has_suffix(s, seq!['m', 'm']) && !has_suffix(s, seq!['i', 'n']) && !has_suffix(s, seq!['p', 't']) && !has_suffix(s, seq!['p', 'c']) && !has_suffix(s, seq!['d', 'e', 'g']) && !has_suffix(s, seq!['r', 'a', 'd']) && !has_suffix(s, seq!['g', 'r', 'a', 'd']) && !has_suffix(s, seq!['m', 's']) && !has_suffix(s, seq!['s']) && !has_suffix(s, seq!['h', 'z']) && !has_suffix(s, seq!['k', 'h', 'z']) && !has_suffix(s, seq!['f', 'r']) && !has_suffix(s, seq!['d', 'p', 'i']) && !has_suffix(s, seq!['d', 'p', 'c', 'm']) && !has_suffix(s, seq!['c', 'q', 'w']) && !has_suffix(s, seq!['c', 'q', 'h']) && !has_suffix(s, seq!['c', 'q', 'i']) && !has_suffix(s, seq!['c', 'q', 'b']) && !has_suffix(s, seq!['c', 'q', 'm', 'i', 'n']) && !has_suffix(s, seq!['c', 'q', 'm', 'a', 'x']),
{
    if has_suffix(s, seq!['e', 'm']) {
        lemma_suffix_chars(s, seq!['e', 'm']);
        assert(seq!['e', 'm'][1] == 'm');
        assert(s[s.len() - 1] == 'm');
    }
    if has_suffix(s, seq!['e', 'x']) {
        lemma_suffix_chars(s, seq!['e', 'x']);
        assert(seq!['e', 'x'][1] == 'x');
        assert(s[s.len() - 1] == 'x');
    }
    if has_suffix(s, seq!['p', 'x']) {
        lemma_suffix_chars(s, seq!['p', 'x']);
        assert(seq!['p', 'x'][1] == 'x');
        assert(s[s.len() - 1] == 'x');
    }
    if has_suffix(s, seq!['c', 'm']) {
        lemma_suffix_chars(s, seq!['c', 'm']);
        assert(seq!['c', 'm'][1] == 'm');
        assert(s[s.len() - 1] == 'm');
    }
    if has_suffix(s, seq!['m', 'm']) {
        lemma_suffix_chars(s, seq!['m', 'm']);
        assert(seq!['m', 'm'][1] == 'm');
        assert(s[s.len() - 1] == 'm');
    }
    if has_suffix(s, seq!['i', 'n']) {
        lemma_suffix_chars(s, seq!['i', 'n']);
        assert(seq!['i', 'n'][1] == 'n');
        assert(s[s.len() - 1] == 'n');
    }
    if has_suffix(s, seq!['p', 't']) {
        lemma_suffix_chars(s, seq!['p', 't']);
        assert(seq!['p', 't'][1] == 't');
        assert(s[s.len() - 1] == 't');
    }
    if has_suffix(s, seq!['p', 'c']) {
        lemma_suffix_chars(s, seq!['p', 'c']);
        assert(seq!['p', 'c'][1] == 'c');
        assert(s[s.len() - 1] == 'c');
    }
    if has_suffix(s, seq!['d', 'e', 'g']) {
        lemma_suffix_chars(s, seq!['d', 'e', 'g']);
        assert(seq!['d', 'e', 'g'][2] == 'g');
        assert(s[s.len() - 1] == 'g');
    }
    if has_suffix(s, seq!['r', 'a', 'd']) {
        lemma_suffix_chars(s, seq!['r', 'a', 'd']);
        assert(seq!['r', 'a', 'd'][2] == 'd');
        assert(s[s.len() - 1] == 'd');
    }
    if has_suffix(s, seq!['g', 'r', 'a', 'd']) {
        lemma_suffix_chars(s, seq!['g', 'r', 'a', 'd']);
        assert(seq!['g', 'r', 'a', 'd'][3] == 'd');
        assert(s[s.len() - 1] == 'd');
    }
    if has_suffix(s, seq!['m', 's']) {
        lemma_suffix_chars(s, seq!['m', 's']);
        assert(seq!['m', 's'][1] == 's');
        assert(s[s.len() - 1] == 's');
    }
    if has_suffix(s, seq!['s']) {
        lemma_suffix_chars(s, seq!['s']);
        assert(seq!['s'][0] == 's');
        assert(s[s.len() - 1] == 's');
    }
    if has_suffix(s, seq!['h', 'z']) {
        lemma_suffix_chars(s, seq!['h', 'z']);
        assert(seq!['h', 'z'][1] == 'z');
        assert(s[s.len() - 1] == 'z');
    }
    if has_suffix(s, seq!['k', 'h', 'z']) {
        lemma_suffix_chars(s, seq!['k', 'h', 'z']);
        assert(seq!['k', 'h', 'z'][2] == 'z');
        assert(s[s.len() - 1] == 'z');
    }
    if has_suffix(s, seq!['f', 'r']) {
        lemma_suffix_chars(s, seq!['f', 'r']);
        assert(seq!['f', 'r'][1] == 'r');
        assert(s[s.len() - 1] == 'r');
    }
    if has_suffix(s, seq!['d', 'p', 'i']) {
        lemma_suffix_chars(s, seq!['d', 'p', 'i']);
        assert(seq!['d', 'p', 'i'][2] == 'i');
        assert(s[s.len() - 1] == 'i');
    }
    if has_suffix(s, seq!['d', 'p', 'c', 'm']) {
        lemma_suffix_chars(s, seq!['d', 'p', 'c', 'm']);
        assert(seq!['d', 'p', 'c', 'm'][3] == 'm');
        assert(s[s.len() - 1] == 'm');
    }
    if has_suffix(s, seq!['c', 'q', 'w']) {
        lemma_suffix_chars(s, seq!['c', 'q', 'w']);
        assert(seq!['c', 'q', 'w'][2] == 'w');
        assert(s[s.len() - 1] == 'w');
    }
    if has_suffix(s, seq!['c', 'q', 'h']) {
        lemma_suffix_chars(s, seq!['c', 'q', 'h']);
        assert(seq!['c', 'q', 'h'][2] == 'h');
        assert(s[s.len() - 1] == 'h');
    }
    if has_suffix(s, seq!['c', 'q', 'i']) {
        lemma_suffix_chars(s, seq!['c', 'q', 'i']);
        assert(seq!['c', 'q', 'i'][2] == 'i');
        assert(s[s.len() - 1] == 'i');
    }
    if has_suffix(s, seq!['c', 'q', 'b']) {
        lemma_suffix_chars(s, seq!['c', 'q', 'b']);
        assert(seq!['c', 'q', 'b'][2] == 'b');
        assert(s[s.len() - 1] == 'b');
    }
    if has_suffix(s, seq!['c', 'q', 'm', 'i', 'n']) {
        lemma_suffix_chars(s, seq!['c', 'q', 'm', 'i', 'n']);
        assert(seq!['c', 'q', 'm', 'i', 'n'][4] == 'n');
        assert(s[s.len() - 1] == 'n');
    }
    if has_suffix(s, seq!['c', 'q', 'm', 'a', 'x']) {
        lemma_suffix_chars(s, seq!['c', 'q', 'm', 'a', 'x']);
        assert(seq!['c', 'q', 'm', 'a', 'x'][4] == 'x');
        assert(s[s.len() - 1] == 'x');
    }
}


/// Each at-keyword of the grammar, lower-cased, has its own kind (the margin boxes of
/// a page share one).
pub proof fn law_at_keyword_kind_table(s: Seq<char>)
    ensures
        s == seq!['@', 'i', 'm', 'p', 'o', 'r', 't'] ==> at_keyword_kind(s) == SyntaxKind::ATKW_IMPORT,
        s == seq!['@', 'n', 'a', 'm', 'e', 's', 'p', 'a', 'c', 'e'] ==> at_keyword_kind(s) == SyntaxKind::ATKW_NAMESPACE,
        s == seq!['@', 'f', 'o', 'n', 't', '-', 'f', 'a', 'c', 'e'] ==> at_keyword_kind(s) == SyntaxKind::ATKW_FONT_FACE,
        s == seq!['@', 'v', 'i', 'e', 'w', 'p', 'o', 'r', 't'] ==> at_keyword_kind(s) == SyntaxKind::ATKW_VIEWPORT,
        s == seq!['@', '-', 'm', 's', '-', 'v', 'i', 'e', 'w', 'p', 'o', 'r', 't'] ==> at_keyword_kind(s) == SyntaxKind::ATKW__MS_VIEWPORT,
        s == seq!['@', '-', 'o', '-', 'v', 'i', 'e', 'w', 'p', 'o', 'r', 't'] ==> at_keyword_kind(s) == SyntaxKind::ATKW__O_VIEWPORT,
        s == seq!['@', 'k', 'e', 'y', 'f', 'r', 'a', 'm', 'e', 's'] ==> at_keyword_kind(s) == SyntaxKind::ATKW_KEYFRAMES,
        s == seq!['@', '-', 'w', 'e', 'b', 'k', 'i', 't', '-', 'k', 'e', 'y', 'f', 'r', 'a', 'm', 'e', 's'] ==> at_keyword_kind(s) == SyntaxKind::ATKW__WEBKIT_KEYFRAMES,
        s == seq!['@', '-', 'm', 'o', 'z', '-', 'k', 'e', 'y', 'f', 'r', 'a', 'm', 'e', 's'] ==> at_keyword_kind(s) == SyntaxKind::ATKW__MOZ_KEYFRAMES,
        s == seq!['@', '-', 'o', '-', 'k', 'e', 'y', 'f', 'r', 'a', 'm', 'e', 's'] ==> at_keyword_kind(s) == SyntaxKind::ATKW__O_KEYFRAMES,
        s == seq!['@', 'p', 'r', 'o', 'p', 'e', 'r', 't', 'y'] ==> at_keyword_kind(s) == SyntaxKind::ATKW_PROPERTY,
        s == seq!['@', 'l', 'a', 'y', 'e', 'r'] ==> at_keyword_kind(s) == SyntaxKind::ATKW_LAYER,
        s == seq!['@', 's', 'u', 'p', 'p', 'o', 'r', 't', 's'] ==> at_keyword_kind(s) == SyntaxKind::ATKW_SUPPORTS,
        s == seq!['@', 'm', 'e', 'd', 'i', 'a'] ==> at_keyword_kind(s) == SyntaxKind::ATKW_MEDIA,
        s == seq!['@', 'p', 'a', 'g', 'e'] ==> at_keyword_kind(s) == SyntaxKind::ATKW_PAGE,
        s == seq!['@', '-', 'm', 'o', 'z', '-', 'd', 'o', 'c', 'u', 'm', 'e', 'n', 't'] ==> at_keyword_kind(s) == SyntaxKind::ATKW__MOZ_DOCUMENT,
        s == seq!['@', 'c', 'o', 'n', 't', 'a', 'i', 'n', 'e', 'r'] ==> at_keyword_kind(s) == SyntaxKind::ATKW_CONTAINER,
        s == seq!['@', 't', 'o', 'p', '-', 'l', 'e', 'f', 't', '-', 'c', 'o', 'r', 'n', 'e', 'r'] ==> at_keyword_kind(s) == SyntaxKind::ATKW_MARGIN_AT_RULE,
        s == seq!['@', 't', 'o', 'p', '-', 'l', 'e', 'f', 't'] ==> at_keyword_kind(s) == SyntaxKind::ATKW_MARGIN_AT_RULE,
        s == seq!['@', 't', 'o', 'p', '-', 'c', 'e', 'n', 't', 'e', 'r'] ==> at_keyword_kind(s) == SyntaxKind::ATKW_MARGIN_AT_RULE,
        s == seq!['@', 't', 'o', 'p', '-', 'r', 'i', 'g', 'h', 't'] ==> at_keyword_kind(s) == SyntaxKind::ATKW_MARGIN_AT_RULE,
        s == seq!['@', 't', 'o', 'p', '-', 'r', 'i', 'g', 'h', 't', '-', 'c', 'o', 'r', 'n', 'e', 'r'] ==> at_keyword_kind(s) == SyntaxKind::ATKW_MARGIN_AT_RULE,
        s == seq!['@', 'b', 'o', 't', 't', 'o', 'm', '-', 'l', 'e', 'f', 't', '-', 'c', 'o', 'r', 'n', 'e', 'r'] ==> at_keyword_kind(s) == SyntaxKind::ATKW_MARGIN_AT_RULE,
        s == seq!['@', 'b', 'o', 't', 't', 'o', 'm', '-', 'l', 'e', 'f', 't'] ==> at_keyword_kind(s) == SyntaxKind::ATKW_MARGIN_AT_RULE,
        s == seq!['@', 'b', 'o', 't', 't', 'o', 'm', '-', 'c', 'e', 'n', 't', 'e', 'r'] ==> at_keyword_kind(s) == SyntaxKind::ATKW_MARGIN_AT_RULE,
        s == seq!['@', 'b', 'o', 't', 't', 'o', 'm', '-', 'r', 'i', 'g', 'h', 't'] ==> at_keyword_kind(s) == SyntaxKind::ATKW_MARGIN_AT_RULE,
        s == seq!['@', 'b', 'o', 't', 't', 'o', 'm', '-', 'r', 'i', 'g', 'h', 't', '-', 'c', 'o', 'r', 'n', 'e', 'r'] ==> at_keyword_kind(s) == SyntaxKind::ATKW_MARGIN_AT_RULE,
        s == seq!['@', 'l', 'e', 'f', 't', '-', 't', 'o', 'p'] ==> at_keyword_kind(s) == SyntaxKind::ATKW_MARGIN_AT_RULE,
        s == seq!['@', 'l', 'e', 'f', 't', '-', 'm', 'i', 'd', 'd', 'l', 'e'] ==> at_keyword_kind(s) == SyntaxKind::ATKW_MARGIN_AT_RULE,
        s == seq!['@', 'l', 'e', 'f', 't', '-', 'b', 'o', 't', 't', 'o', 'm'] ==> at_keyword_kind(s) == SyntaxKind::ATKW_MARGIN_AT_RULE,
        s == seq!['@', 'r', 'i', 'g', 'h', 't', '-', 't', 'o', 'p'] ==> at_keyword_kind(s) == SyntaxKind::ATKW_MARGIN_AT_RULE,
        s == seq!['@', 'r', 'i', 'g', 'h', 't', '-', 'm', 'i', 'd', 'd', 'l', 'e'] ==> at_keyword_kind(s) == SyntaxKind::ATKW_MARGIN_AT_RULE,
        s == seq!['@', 'r', 'i', 'g', 'h', 't', '-', 'b', 'o', 't', 't', 'o', 'm'] ==> at_keyword_kind(s) == SyntaxKind::ATKW_MARGIN_AT_RULE,
{
}

/// Each of the characters `=`, `$`, `~`, `|`, `*`, `^`, `&` and `?` that the tokenizer
/// does not know as a token has its own kind.
pub proof fn law_unknown_kind_table(s: Seq<char>)
    ensures
        s == seq!['='] ==> unknown_kind(s) == SyntaxKind::EQ,
        s == seq!['$'] ==> unknown_kind(s) == SyntaxKind::DOLLAR,
        s == seq!['~'] ==> unknown_kind(s) == SyntaxKind::TILDE,
        s == seq!['|'] ==> unknown_kind(s) == SyntaxKind::PIPE,
        s == seq!['*'] ==> unknown_kind(s) == SyntaxKind::STAR,
        s == seq!['^'] ==> unknown_kind(s) == SyntaxKind::CARET,
        s == seq!['&'] ==> unknown_kind(s) == SyntaxKind::AMP,
        s == seq!['?'] ==> unknown_kind(s) == SyntaxKind::QUESTION,
{
    assert(seq!['='][0] == '=' && seq!['$'][0] == '$' && seq!['~'][0] == '~' && seq!['|'][0] == '|');
    assert(seq!['*'][0] == '*' && seq!['^'][0] == '^' && seq!['&'][0] == '&' && seq!['?'][0] == '?');
    if s.len() == 1 {
        assert(s[0] == s[0]);
    }
}

} // verus!
