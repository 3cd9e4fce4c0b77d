use csslancer::input::Input;
use csslancer::lex_to_syn::{LexedStr, PosedLexerDiagnostic, Token, TokenKind};
use csslancer::reparsing::{is_braced_n_balanced, is_contextual_kw};
use csslancer::shortcut::{
    cx_dim, cx_func, cx_hash, cx_id, is_inner, is_outer, n_attached_trivias, Step, StrStep,
};
use csslancer::syntax_kind::SyntaxKind;

fn tok(kind: TokenKind, len: u32) -> Token {
    Token { kind, len }
}

fn single(text: &str, kind: TokenKind) -> SyntaxKind {
    let tokens = [tok(kind, text.len() as u32)];
    let lexed = LexedStr::from_tokens(text, &tokens, Vec::new());
    lexed.kind(0)
}

#[test]
fn input_records_kinds_and_contexts() {
    let mut input = Input::default();
    input.push(SyntaxKind::COLON);
    input.push_ident(SyntaxKind::CXID_NOT);
    input.push_func(SyntaxKind::CXFUNC_URL);
    assert_eq!(input.len(), 3);
    assert_eq!(input.kind(0), SyntaxKind::COLON);
    assert_eq!(input.kind(1), SyntaxKind::IDENTIFIER);
    assert_eq!(input.kind(2), SyntaxKind::FUNCTION);
    assert_eq!(input.kind(3), SyntaxKind::EOF);
    assert_eq!(input.contextual_kind(0), SyntaxKind::EOF);
    assert_eq!(input.contextual_kind(1), SyntaxKind::CXID_NOT);
    assert_eq!(input.contextual_kind(2), SyntaxKind::CXFUNC_URL);
    assert_eq!(input.contextual_kind(7), SyntaxKind::EOF);
    assert_eq!(input.last_kind(), SyntaxKind::FUNCTION);
}

#[test]
fn input_whitespace_flags_follow_the_last_token() {
    let mut input = Input::default();
    assert_eq!(input.last_kind(), SyntaxKind::EOF);
    for i in 0..70 {
        input.push_id_hash(SyntaxKind::ID_HASH);
        if i % 3 == 0 {
            input.had_whitespace();
        }
    }
    input.push_unrestriced_hash(SyntaxKind::CXHASH_VALID_HEX);
    input.push_unknown_dimension(SyntaxKind::CXDIM_AN_PLUS_B);
    for i in 0..70 {
        assert_eq!(input.has_whitespace_after(i), i % 3 == 0);
    }
    assert!(!input.has_whitespace_after(70));
    assert!(!input.has_whitespace_after(71));
    assert!(!input.has_whitespace_after(100));
    assert_eq!(input.kind(70), SyntaxKind::UNRESTRICTED_HASH);
    assert_eq!(input.kind(71), SyntaxKind::DIM_UNKNOWN);
    assert_eq!(input.contextual_kind(71), SyntaxKind::CXDIM_AN_PLUS_B);
}

#[test]
fn lexed_str_cuts_text_into_tokens() {
    let text = "é {x}";
    let tokens = [
        tok(TokenKind::Ident, 2),
        tok(TokenKind::WhiteSpace, 1),
        tok(TokenKind::OpenCurly, 1),
        tok(TokenKind::Ident, 1),
        tok(TokenKind::CloseCurly, 1),
    ];
    let diags = vec![
        PosedLexerDiagnostic { token_idx: 1, diagnostic: "odd space".to_owned() },
        PosedLexerDiagnostic { token_idx: 3, diagnostic: "odd name".to_owned() },
    ];
    let lexed = LexedStr::from_tokens(text, &tokens, diags);
    assert_eq!(lexed.as_str(), text);
    assert_eq!(lexed.len(), 5);
    assert!(!lexed.is_empty());
    assert_eq!(lexed.kind(0), SyntaxKind::IDENTIFIER);
    assert_eq!(lexed.kind(1), SyntaxKind::WHITESPACE);
    assert_eq!(lexed.kind(2), SyntaxKind::L_CURLY);
    assert_eq!(lexed.kind(4), SyntaxKind::R_CURLY);
    assert_eq!(lexed.text(0), "é");
    assert_eq!(lexed.text(3), "x");
    assert_eq!(lexed.range_text(0..3), "é {");
    assert_eq!(lexed.text_range(2), 3..4);
    assert_eq!(lexed.text_start(5), 6);
    assert_eq!(lexed.text_len(0), 2);
    assert_eq!(lexed.error(1), Some("odd space".to_owned()));
    assert_eq!(lexed.error(3), Some("odd name".to_owned()));
    assert_eq!(lexed.error(0), None);
    assert_eq!(
        lexed.errors(),
        vec![(1, "odd space".to_owned()), (3, "odd name".to_owned())]
    );
}

#[test]
fn lexed_str_of_nothing_is_empty() {
    let lexed = LexedStr::from_tokens("", &[], Vec::new());
    assert!(lexed.is_empty());
    assert_eq!(lexed.len(), 0);
    assert_eq!(lexed.text_start(0), 0);
}

#[test]
fn at_keywords_are_recognized_in_any_case() {
    assert_eq!(single("@MEDIA", TokenKind::AtKeyword), SyntaxKind::ATKW_MEDIA);
    assert_eq!(single("@-moz-document", TokenKind::AtKeyword), SyntaxKind::ATKW__MOZ_DOCUMENT);
    assert_eq!(single("@top-left-corner", TokenKind::AtKeyword), SyntaxKind::ATKW_MARGIN_AT_RULE);
    assert_eq!(single("@right-bottom", TokenKind::AtKeyword), SyntaxKind::ATKW_MARGIN_AT_RULE);
    assert_eq!(single("@charset", TokenKind::AtKeyword), SyntaxKind::ATKW_UNKNOWN);
    assert_eq!(single("@Font-Face", TokenKind::AtKeyword), SyntaxKind::ATKW_FONT_FACE);
}

#[test]
fn dimensions_go_by_the_first_matching_unit() {
    assert_eq!(single("10PX", TokenKind::Dimension), SyntaxKind::DIM_PX);
    assert_eq!(single("3ms", TokenKind::Dimension), SyntaxKind::DIM_MS);
    assert_eq!(single("5s", TokenKind::Dimension), SyntaxKind::DIM_S);
    assert_eq!(single("2khz", TokenKind::Dimension), SyntaxKind::DIM_HZ);
    assert_eq!(single("1cqmax", TokenKind::Dimension), SyntaxKind::DIM_CQMAX);
    assert_eq!(single("1foo", TokenKind::Dimension), SyntaxKind::DIM_UNKNOWN);
    assert_eq!(single("50%", TokenKind::Percentage), SyntaxKind::DIM_PERCENT);
}

#[test]
fn unknown_characters_and_delimiters() {
    assert_eq!(single("=", TokenKind::Unknown), SyntaxKind::EQ);
    assert_eq!(single("$", TokenKind::Unknown), SyntaxKind::DOLLAR);
    assert_eq!(single("?", TokenKind::Unknown), SyntaxKind::QUESTION);
    assert_eq!(single("§", TokenKind::Unknown), SyntaxKind::ERROR);
    assert_eq!(single("/", TokenKind::DelimUnexpectedSolidus), SyntaxKind::ERROR);
    assert_eq!(single(">", TokenKind::DelimGreaterThanSign), SyntaxKind::R_ANGLE);
    assert_eq!(single("", TokenKind::Eof), SyntaxKind::EOF);
}

#[test]
fn contextual_kinds() {
    assert_eq!(cx_hash("#fff"), Some(SyntaxKind::CXHASH_VALID_HEX));
    assert_eq!(cx_hash("#A1b2C3d4"), Some(SyntaxKind::CXHASH_VALID_HEX));
    assert_eq!(cx_hash("#12345"), None);
    assert_eq!(cx_hash("#ggg"), None);
    assert_eq!(cx_hash("fff"), None);
    assert_eq!(cx_id("NOT"), Some(SyntaxKind::CXID_NOT));
    assert_eq!(cx_id("-n"), Some(SyntaxKind::CXID_AN_PLUS_B_SYNTAX_AN));
    assert_eq!(cx_id("--main-color"), Some(SyntaxKind::CXID_VALID_CUSTOM_PROP));
    assert_eq!(cx_id("screen"), None);
    assert_eq!(cx_func("URL("), Some(SyntaxKind::CXFUNC_URL));
    assert_eq!(cx_func("calc("), None);
    assert_eq!(cx_dim("2n"), Some(SyntaxKind::CXDIM_AN_PLUS_B));
    assert_eq!(cx_dim("n"), Some(SyntaxKind::CXDIM_AN_PLUS_B));
    assert_eq!(cx_dim("2x"), None);
    assert_eq!(cx_dim("an"), None);
}

#[test]
fn doc_comment_shapes() {
    assert!(is_outer("/// doc"));
    assert!(is_outer("/** doc */"));
    assert!(!is_outer("//// not"));
    assert!(!is_outer("/*** not */"));
    assert!(is_inner("//! inner"));
    assert!(is_inner("/*! inner */"));
    assert!(!is_inner("/* plain */"));
}

#[test]
fn attached_trivias_stop_at_blank_lines() {
    let ts = vec![(SyntaxKind::COMMENT, "/* a */"), (SyntaxKind::WHITESPACE, " ")];
    assert_eq!(n_attached_trivias(SyntaxKind::RULE_SET, &ts), 1);
    let ts = vec![
        (SyntaxKind::WHITESPACE, "\n"),
        (SyntaxKind::COMMENT, "/* a */"),
        (SyntaxKind::WHITESPACE, "\n\n"),
        (SyntaxKind::COMMENT, "/* b */"),
    ];
    assert_eq!(n_attached_trivias(SyntaxKind::RULE_SET, &ts), 2);
    let ts = vec![
        (SyntaxKind::WHITESPACE, "\n\n"),
        (SyntaxKind::COMMENT, "/** doc */"),
        (SyntaxKind::COMMENT, "/* c */"),
    ];
    assert_eq!(n_attached_trivias(SyntaxKind::RULE_SET, &ts), 3);
    let ts = vec![(SyntaxKind::COMMENT, "/*! inner */"), (SyntaxKind::COMMENT, "/* c */")];
    assert_eq!(n_attached_trivias(SyntaxKind::RULE_SET, &ts), 0);
}

#[test]
fn to_input_drops_trivia_and_marks_whitespace() {
    let text = " a  url(#fff";
    let tokens = [
        tok(TokenKind::WhiteSpace, 1),
        tok(TokenKind::Ident, 1),
        tok(TokenKind::WhiteSpace, 2),
        tok(TokenKind::Function, 4),
        tok(TokenKind::IdHash, 4),
    ];
    let lexed = LexedStr::from_tokens(text, &tokens, Vec::new());
    let input = lexed.to_input();
    assert_eq!(input.len(), 3);
    assert_eq!(input.kind(0), SyntaxKind::IDENTIFIER);
    assert_eq!(input.contextual_kind(0), SyntaxKind::IDENTIFIER);
    assert_eq!(input.kind(1), SyntaxKind::FUNCTION);
    assert_eq!(input.contextual_kind(1), SyntaxKind::CXFUNC_URL);
    assert_eq!(input.kind(2), SyntaxKind::ID_HASH);
    assert_eq!(input.contextual_kind(2), SyntaxKind::CXHASH_VALID_HEX);
    assert!(input.has_whitespace_after(0));
    assert!(!input.has_whitespace_after(1));
    assert!(!input.has_whitespace_after(2));
}

fn texts(steps: &[StrStep<'_>]) -> String {
    let mut s = String::new();
    for step in steps {
        if let StrStep::Token { text, .. } = step {
            s.push_str(text);
        }
    }
    s
}

#[test]
fn intersperse_trivia_puts_trivia_back() {
    let text = " a /*c*/";
    let tokens = [
        tok(TokenKind::WhiteSpace, 1),
        tok(TokenKind::Ident, 1),
        tok(TokenKind::WhiteSpace, 1),
        tok(TokenKind::Comment, 5),
    ];
    let lexed = LexedStr::from_tokens(text, &tokens, Vec::new());
    let output = vec![
        Step::Enter { kind: SyntaxKind::SOURCE_FILE },
        Step::Token { kind: SyntaxKind::IDENTIFIER, n_input_tokens: 1 },
        Step::Error { msg: "expected a colon".to_owned() },
        Step::Exit,
    ];
    let mut sink = Vec::new();
    let eof = lexed.intersperse_trivia(&output, &mut sink);
    assert!(eof);
    assert_eq!(sink.len(), 7);
    assert!(matches!(sink[0], StrStep::Enter { kind: SyntaxKind::SOURCE_FILE }));
    assert!(matches!(sink[1], StrStep::Token { kind: SyntaxKind::WHITESPACE, text: " " }));
    assert!(matches!(sink[2], StrStep::Token { kind: SyntaxKind::IDENTIFIER, text: "a" }));
    assert!(matches!(sink[3], StrStep::Error { msg: "expected a colon", pos: 2 }));
    assert!(matches!(sink[4], StrStep::Token { kind: SyntaxKind::WHITESPACE, text: " " }));
    assert!(matches!(sink[5], StrStep::Token { kind: SyntaxKind::COMMENT, text: "/*c*/" }));
    assert!(matches!(sink[6], StrStep::Exit));
    assert_eq!(texts(&sink), text);
}

#[test]
fn intersperse_trivia_attaches_leading_comments_to_nodes() {
    let text = "a\n/*c*/ b";
    let tokens = [
        tok(TokenKind::Ident, 1),
        tok(TokenKind::WhiteSpace, 1),
        tok(TokenKind::Comment, 5),
        tok(TokenKind::WhiteSpace, 1),
        tok(TokenKind::Ident, 1),
    ];
    let lexed = LexedStr::from_tokens(text, &tokens, Vec::new());
    let output = vec![
        Step::Enter { kind: SyntaxKind::SOURCE_FILE },
        Step::Token { kind: SyntaxKind::IDENTIFIER, n_input_tokens: 1 },
        Step::Enter { kind: SyntaxKind::RULE_SET },
        Step::Token { kind: SyntaxKind::IDENTIFIER, n_input_tokens: 1 },
        Step::Exit,
        Step::Exit,
    ];
    let mut sink = Vec::new();
    assert!(lexed.intersperse_trivia(&output, &mut sink));
    assert!(matches!(sink[2], StrStep::Token { kind: SyntaxKind::WHITESPACE, text: "\n" }));
    assert!(matches!(sink[3], StrStep::Enter { kind: SyntaxKind::RULE_SET }));
    assert!(matches!(sink[4], StrStep::Token { kind: SyntaxKind::COMMENT, text: "/*c*/" }));
    assert!(matches!(sink[5], StrStep::Token { kind: SyntaxKind::WHITESPACE, text: " " }));
    assert_eq!(texts(&sink), text);
    assert_eq!(sink.len(), 9);
    let enters = sink.iter().filter(|s| matches!(s, StrStep::Enter { .. })).count();
    let exits = sink.iter().filter(|s| matches!(s, StrStep::Exit)).count();
    assert_eq!((enters, exits), (2, 2));
}

#[test]
fn intersperse_trivia_reports_unused_tokens() {
    let text = "a b";
    let tokens = [tok(TokenKind::Ident, 1), tok(TokenKind::WhiteSpace, 1), tok(TokenKind::Ident, 1)];
    let lexed = LexedStr::from_tokens(text, &tokens, Vec::new());
    let output = vec![
        Step::Enter { kind: SyntaxKind::SOURCE_FILE },
        Step::Token { kind: SyntaxKind::IDENTIFIER, n_input_tokens: 1 },
        Step::Exit,
    ];
    let mut sink = Vec::new();
    assert!(!lexed.intersperse_trivia(&output, &mut sink));
    assert_eq!(texts(&sink), "a ");
}

#[test]
fn braced_blocks_must_balance() {
    let block = |text: &str, kinds: &[TokenKind]| {
        let tokens: Vec<Token> = kinds.iter().map(|k| tok(*k, 1)).collect();
        let lexed = LexedStr::from_tokens(text, &tokens, Vec::new());
        is_braced_n_balanced(&lexed)
    };
    let (l, r, i) = (TokenKind::OpenCurly, TokenKind::CloseCurly, TokenKind::Ident);
    assert!(block("{}", &[l, r]));
    assert!(block("{{a}}", &[l, l, i, r, r]));
    assert!(!block("{}}", &[l, r, r]));
    assert!(!block("{{}", &[l, l, r]));
    assert!(!block("}{", &[r, l]));
    assert!(!block("{", &[l]));
    assert!(!block("", &[]));
    assert!(!block("{}{", &[l, r, l]));
    assert!(!block("{}{}", &[l, r, l, r]));
    assert!(is_contextual_kw("auto"));
    assert!(is_contextual_kw("union"));
    assert!(!is_contextual_kw("Auto"));
}

#[test]
fn statements_that_end_with_semicolons() {
    use_semicolons();
}

fn use_semicolons() {
    assert!(!csslancer::css_grammar::needs_semicolon_after(SyntaxKind::RULE_SET));
    assert!(!csslancer::css_grammar::needs_semicolon_after(SyntaxKind::MEDIA));
    assert!(csslancer::css_grammar::needs_semicolon_after(SyntaxKind::IMPORT));
    assert!(csslancer::css_grammar::needs_semicolon_after(SyntaxKind::DECLARATION_CUSTOM_PROPERTY));
    assert!(!csslancer::css_grammar::needs_semicolon_after(SyntaxKind::DECLARATION_BASIC));
}

#[test]
fn single_tokens_are_recognized() {
    let (kind, messages) = LexedStr::single_token("@MEDIA", &[tok(TokenKind::AtKeyword, 6)], Vec::new()).unwrap();
    assert_eq!(kind, SyntaxKind::ATKW_MEDIA);
    assert!(messages.is_empty());
    let diag = PosedLexerDiagnostic { token_idx: 0, diagnostic: "unterminated string".to_owned() };
    let (kind, messages) = LexedStr::single_token("'ab", &[tok(TokenKind::BadString, 3)], vec![diag]).unwrap();
    assert_eq!(kind, SyntaxKind::BAD_STRING);
    assert_eq!(messages, vec!["unterminated string".to_owned()]);
    assert_eq!(LexedStr::single_token("10Px", &[tok(TokenKind::Dimension, 4)], Vec::new()).unwrap().0, SyntaxKind::DIM_PX);
    assert!(LexedStr::single_token("", &[], Vec::new()).is_none());
    assert!(LexedStr::single_token("a b", &[tok(TokenKind::Ident, 1), tok(TokenKind::WhiteSpace, 1), tok(TokenKind::Ident, 1)], Vec::new()).is_none());
    assert!(LexedStr::single_token("ab", &[tok(TokenKind::Ident, 1)], Vec::new()).is_none());
}
