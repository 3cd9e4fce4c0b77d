use csslancer::css_scanner::{MultiLineStream, Scanner};
use csslancer::css_scanner::TokenType;

fn ast(
    scanner: &mut Scanner,
    source: &str,
    len: usize,
    offset: usize,
    text: &str,
    token_types: Vec<TokenType>,
) {
    scanner.set_source(source.to_owned());
    let token = scanner.scan();
    assert_eq!(token.length, len);
    assert_eq!(token.offset, offset);
    assert_eq!(token.text, text);
    assert_eq!(token.token_type, token_types[0]);
    for tt in &token_types[1..] {
        assert_eq!(scanner.scan().token_type, tt.clone());
    }
    assert_eq!(scanner.scan().token_type, TokenType::EOF);
}

fn assert_url_argument(sc: &mut Scanner, source: &str, text: &str, token_type: TokenType) {
    sc.set_source(source.to_owned());
    let token = sc.scan_unquoted_string();
    assert!(token.is_some());
    let token = token.unwrap();
    assert_eq!(token.length, text.len());
    assert_eq!(token.offset, 0);
    assert_eq!(token.text, text);
    assert_eq!(token.token_type, token_type);
}

fn assert_token_sequence(scanner: &mut Scanner, source: &str, tokens: Vec<TokenType>) {
    scanner.set_source(source.to_owned());
    let mut token = scanner.scan();
    let mut i = 0;
    while tokens.len() > i {
        assert_eq!(token.token_type, tokens[i]);
        token = scanner.scan();
        i += 1;
    }
}

#[test]
fn whitespace() {
    let mut sc = Scanner::default();
    ast(&mut sc, " @", 1, 1, "@", vec![TokenType::Delim]);
    ast(&mut sc, " /* comment*/ \n/*comment*/@", 1, 26, "@", vec![TokenType::Delim]);

    sc = Scanner::default();
    sc.ignore_whitespace = false;
    ast(&mut sc, " @", 1, 0, " ", vec![TokenType::Whitespace, TokenType::Delim]);
    ast(&mut sc, "/*comment*/ @", 1, 11, " ", vec![TokenType::Whitespace, TokenType::Delim]);

    sc = Scanner::default();
    sc.ignore_comments = false;
    ast(&mut sc, " /*comment*/@", 11, 1, "/*comment*/", vec![TokenType::Comment, TokenType::Delim]);
    ast(&mut sc, "/*comment*/ @", 11, 0, "/*comment*/", vec![TokenType::Comment, TokenType::Delim]);
}

#[test]
fn token_ident() {
    let sc = &mut Scanner::default();
    ast(sc, "\u{060F}rf", 4, 0, "\u{060F}rf", vec![TokenType::Ident]);
    ast(sc, "über", 5, 0, "über", vec![TokenType::Ident]);
    ast(sc, "-bo", 3, 0, "-bo", vec![TokenType::Ident]);
    ast(sc, "_bo", 3, 0, "_bo", vec![TokenType::Ident]);
    ast(sc, "boo", 3, 0, "boo", vec![TokenType::Ident]);
    ast(sc, "Boo", 3, 0, "Boo", vec![TokenType::Ident]);
    ast(sc, "red--", 5, 0, "red--", vec![TokenType::Ident]);
    ast(sc, "red-->", 5, 0, "red--", vec![TokenType::Ident, TokenType::Delim]);
    ast(sc, "--red", 5, 0, "--red", vec![TokenType::Ident]);
    ast(sc, "--100", 5, 0, "--100", vec![TokenType::Ident]);
    ast(sc, "---red", 6, 0, "---red", vec![TokenType::Ident]);
    ast(sc, "---", 3, 0, "---", vec![TokenType::Ident]);
    ast(sc, "a\\.b", 4, 0, "a.b", vec![TokenType::Ident]);
    ast(sc, "\\E9motion", 9, 0, "émotion", vec![TokenType::Ident]);
    ast(sc, "\\E9 dition", 10, 0, "édition", vec![TokenType::Ident]);
    ast(sc, "\\0000E9dition", 13, 0, "édition", vec![TokenType::Ident]);
    ast(sc, "S\\0000e9f", 9, 0, "Séf", vec![TokenType::Ident]);
}

#[test]
fn token_url() {
    let sc = &mut Scanner::default();
    assert_url_argument(sc, "http://msft.com", "http://msft.com", TokenType::UnquotedString);
    assert_url_argument(sc, "http://msft.com\"", "http://msft.com", TokenType::UnquotedString);
}

#[test]
fn token_at_keyword() {
    let sc = &mut Scanner::default();
    ast(sc, "@import", 7, 0, "@import", vec![TokenType::AtKeyword]);
    ast(sc, "@importttt", 10, 0, "@importttt", vec![TokenType::AtKeyword]);
    ast(sc, "@imp", 4, 0, "@imp", vec![TokenType::AtKeyword]);
    ast(sc, "@5", 2, 0, "@5", vec![TokenType::AtKeyword]);
    ast(sc, "@media", 6, 0, "@media", vec![TokenType::AtKeyword]);
    ast(sc, "@page", 5, 0, "@page", vec![TokenType::AtKeyword]);
    ast(sc, "@charset", 8, 0, "@charset", vec![TokenType::Charset]);
    ast(sc, "@-mport", 7, 0, "@-mport", vec![TokenType::AtKeyword]);
    ast(sc, "@\u{00f0}mport", 8, 0, "@\u{00f0}mport", vec![TokenType::AtKeyword]);
    ast(sc, "@apply", 6, 0, "@apply", vec![TokenType::AtKeyword]);
    ast(sc, "@", 1, 0, "@", vec![TokenType::Delim]);
}

#[test]
fn token_number() {
    let sc = &mut Scanner::default();
    ast(sc, "1234", 4, 0, "1234", vec![TokenType::Num]);
    ast(sc, "1.34", 4, 0, "1.34", vec![TokenType::Num]);
    ast(sc, ".234", 4, 0, ".234", vec![TokenType::Num]);
    ast(sc, ".234.", 4, 0, ".234", vec![TokenType::Num, TokenType::Delim]);
    ast(sc, "..234", 1, 0, ".", vec![TokenType::Delim, TokenType::Num]);
}

#[test]
fn token_delim() {
    let sc = &mut Scanner::default();
    ast(sc, "@", 1, 0, "@", vec![TokenType::Delim]);
    ast(sc, "+", 1, 0, "+", vec![TokenType::Delim]);
    ast(sc, ">", 1, 0, ">", vec![TokenType::Delim]);
    ast(sc, "#", 1, 0, "#", vec![TokenType::Delim]);
    ast(sc, "'", 1, 0, "'", vec![TokenType::BadString]);
    ast(sc, "\"", 1, 0, "\"", vec![TokenType::BadString]);
}

#[test]
fn token_hash() {
    let sc = &mut Scanner::default();
    ast(sc, "#import", 7, 0, "#import", vec![TokenType::Hash]);
    ast(sc, "#-mport", 7, 0, "#-mport", vec![TokenType::Hash]);
    ast(sc, "#123", 4, 0, "#123", vec![TokenType::Hash]);
}

#[test]
fn token_dimension_or_percentage() {
    let sc = &mut Scanner::default();
    ast(sc, "3em", 3, 0, "3em", vec![TokenType::EMS]);
    ast(sc, "4.423ex", 7, 0, "4.423ex", vec![TokenType::EXS]);
    ast(sc, "3423px", 6, 0, "3423px", vec![TokenType::Length]);
    ast(sc, "4.423cm", 7, 0, "4.423cm", vec![TokenType::Length]);
    ast(sc, "4.423mm", 7, 0, "4.423mm", vec![TokenType::Length]);
    ast(sc, "4.423in", 7, 0, "4.423in", vec![TokenType::Length]);
    ast(sc, "4.423pt", 7, 0, "4.423pt", vec![TokenType::Length]);
    ast(sc, "4.423pc", 7, 0, "4.423pc", vec![TokenType::Length]);
    ast(sc, "4.423deg", 8, 0, "4.423deg", vec![TokenType::Angle]);
    ast(sc, "4.423rad", 8, 0, "4.423rad", vec![TokenType::Angle]);
    ast(sc, "4.423grad", 9, 0, "4.423grad", vec![TokenType::Angle]);
    ast(sc, "4.423ms", 7, 0, "4.423ms", vec![TokenType::Time]);
    ast(sc, "4.423s", 6, 0, "4.423s", vec![TokenType::Time]);
    ast(sc, "4.423hz", 7, 0, "4.423hz", vec![TokenType::Freq]);
    ast(sc, ".423khz", 7, 0, ".423khz", vec![TokenType::Freq]);
    ast(sc, "3.423%", 6, 0, "3.423%", vec![TokenType::Percentage]);
    ast(sc, ".423%", 5, 0, ".423%", vec![TokenType::Percentage]);
    ast(sc, ".423ft", 6, 0, ".423ft", vec![TokenType::Dimension]);
    ast(sc, "200dpi", 6, 0, "200dpi", vec![TokenType::Resolution]);
    ast(sc, "123dpcm", 7, 0, "123dpcm", vec![TokenType::Resolution]);
}

#[test]
fn token_string() {
    let sc = &mut Scanner::default();
    ast(sc, "'farboo'", 8, 0, "'farboo'", vec![TokenType::String]);
    ast(sc, "\"farboo\"", 8, 0, "\"farboo\"", vec![TokenType::String]);
    ast(sc, "\"farbo\u{00f0}\"", 9, 0, "\"farbo\u{00f0}\"", vec![TokenType::String]);
    ast(sc, "\"far\\\"oo\"", 9, 0, "\"far\"oo\"", vec![TokenType::String]);
    ast(sc, "\"fa\\\noo\"", 8, 0, "\"fa\noo\"", vec![TokenType::String]);
    ast(sc, "\"fa\\\roo\"", 8, 0, "\"fa\roo\"", vec![TokenType::String]);
    ast(sc, "\"fa\\\u{000c}oo\"", 8, 0, "\"fa\u{000c}oo\"", vec![TokenType::String]);
    ast(sc, "'farboo\"", 8, 0, "'farboo\"", vec![TokenType::BadString]);
    ast(sc, "\"farboo", 7, 0, "\"farboo", vec![TokenType::BadString]);
    ast(sc, "'", 1, 0, "'", vec![TokenType::BadString]);
    ast(sc, "\"", 1, 0, "\"", vec![TokenType::BadString]);
}

#[test]
fn token_cdo() {
    let sc = &mut Scanner::default();
    ast(sc, "<!--", 4, 0, "<!--", vec![TokenType::CDO]);
    ast(
        sc,
        "<!-\n-",
        1,
        0,
        "<",
        vec![TokenType::Delim, TokenType::Exclamation, TokenType::Delim, TokenType::Delim],
    );
}

#[test]
fn token_cdc() {
    let sc = &mut Scanner::default();
    ast(sc, "-->", 3, 0, "-->", vec![TokenType::CDC]);
    ast(sc, "--y>", 3, 0, "--y", vec![TokenType::Ident, TokenType::Delim]);
    ast(sc, "--<", 2, 0, "--", vec![TokenType::Ident, TokenType::Delim]);
}

#[test]
fn token_misc_delims_and_punct() {
    let sc = &mut Scanner::default();
    ast(sc, ":  ", 1, 0, ":", vec![TokenType::Colon]);
    ast(sc, ";  ", 1, 0, ";", vec![TokenType::SemiColon]);
    ast(sc, "{  ", 1, 0, "{", vec![TokenType::CurlyL]);
    ast(sc, "}  ", 1, 0, "}", vec![TokenType::CurlyR]);
    ast(sc, "[  ", 1, 0, "[", vec![TokenType::BracketL]);
    ast(sc, "]  ", 1, 0, "]", vec![TokenType::BracketR]);
    ast(sc, "(  ", 1, 0, "(", vec![TokenType::ParenthesisL]);
    ast(sc, ")  ", 1, 0, ")", vec![TokenType::ParenthesisR]);
}

#[test]
fn token_dashmatch_and_includes() {
    let sc = &mut Scanner::default();
    ast(sc, "~=", 2, 0, "~=", vec![TokenType::Includes]);
    ast(sc, "~", 1, 0, "~", vec![TokenType::Delim]);
    ast(sc, "|=", 2, 0, "|=", vec![TokenType::Dashmatch]);
    ast(sc, "|", 1, 0, "|", vec![TokenType::Delim]);
    ast(sc, "^=", 2, 0, "^=", vec![TokenType::PrefixOperator]);
    ast(sc, "$=", 2, 0, "$=", vec![TokenType::SuffixOperator]);
    ast(sc, "*=", 2, 0, "*=", vec![TokenType::SubstringOperator]);
}

#[test]
fn comments() {
    let sc = &mut Scanner::default();
    ast(sc, "/*      */", 0, 10, "", vec![TokenType::EOF]);
    ast(sc, "/*      abcd*/", 0, 14, "", vec![TokenType::EOF]);
    ast(sc, "/*abcd  */", 0, 10, "", vec![TokenType::EOF]);
    ast(sc, "/* ab- .-cd  */", 0, 15, "", vec![TokenType::EOF]);
}

#[test]
fn whitespaces() {
    let sc = &mut Scanner::default();
    ast(sc, " ", 0, 1, "", vec![TokenType::EOF]);
    ast(sc, "      ", 0, 6, "", vec![TokenType::EOF]);
}

// tests with skipping comments
#[test]
fn token_sequence() {
    let sc = &mut Scanner::default();
    assert_token_sequence(sc, "5 5 5 5", vec![TokenType::Num, TokenType::Num, TokenType::Num, TokenType::Num]);
    assert_token_sequence(sc, "/* 5 4 */-->", vec![TokenType::CDC]);
    assert_token_sequence(sc, "/* 5 4 */ -->", vec![TokenType::CDC]);
    assert_token_sequence(sc, "/* \"adaasd\" */ -->", vec![TokenType::CDC]);
    assert_token_sequence(sc, "/* <!-- */ -->", vec![TokenType::CDC]);
    assert_token_sequence(sc, "red-->", vec![TokenType::Ident, TokenType::Delim]);
    assert_token_sequence(sc, "@ import", vec![TokenType::Delim, TokenType::Ident]);
}

#[test]
fn scanning_reaches_the_end() {
    let mut sc = Scanner::default();
    sc.set_source("a { b: 1px } /* c */ @media é \"s\" #id".to_owned());
    let mut last = 0;
    let mut count = 0;
    loop {
        let t = sc.scan();
        count += 1;
        assert!(t.offset >= last);
        if t.token_type == TokenType::EOF {
            assert_eq!(t.offset, "a { b: 1px } /* c */ @media é \"s\" #id".len());
            break;
        }
        assert!(t.length > 0);
        last = t.offset + t.length;
        assert!(count < 100);
    }
}

#[test]
fn raw_tokens_carry_their_source_text() {
    let source = "a <!-- ; ~= ! 12 /* c */ --> ( ) [ ] { } , : | é $= ^= *= |=";
    let mut sc = Scanner::new(source.to_owned(), false, false, false);
    let mut seen = 0;
    loop {
        let t = sc.scan();
        let raw = matches!(
            t.token_type,
            TokenType::Whitespace
                | TokenType::Comment
                | TokenType::CDO
                | TokenType::CDC
                | TokenType::Exclamation
                | TokenType::Num
                | TokenType::Delim
                | TokenType::SemiColon
                | TokenType::Colon
                | TokenType::CurlyL
                | TokenType::CurlyR
                | TokenType::BracketL
                | TokenType::BracketR
                | TokenType::ParenthesisL
                | TokenType::ParenthesisR
                | TokenType::Comma
                | TokenType::Includes
                | TokenType::Dashmatch
                | TokenType::SubstringOperator
                | TokenType::PrefixOperator
                | TokenType::SuffixOperator
                | TokenType::EOF
        );
        if raw {
            seen += 1;
            assert_eq!(t.text, &source[t.offset..t.offset + t.length]);
        }
        if t.token_type == TokenType::EOF {
            break;
        }
    }
    assert!(seen > 20);
}

#[test]
fn unicode_ranges_need_digits_on_both_sides() {
    let mut sc = Scanner::new(String::new(), true, true, false);
    for src in ["+1234567", "+1-", "12", "+-1", "+12-1234567"] {
        sc.set_source(src.to_owned());
        assert!(sc.try_scan_unicode().is_none());
        assert_eq!(sc.get_position(), 0);
    }
    for (src, len) in [("+1-2", 4), ("+0021-007F", 10), ("+4??", 4), ("+12 ", 3)] {
        sc.set_source(src.to_owned());
        let t = sc.try_scan_unicode().unwrap();
        assert_eq!(t.token_type, TokenType::UnicodeRange);
        assert_eq!((t.offset, t.length), (0, len));
        assert_eq!(sc.get_position(), len);
    }
}

#[test]
fn stream_reads_at_byte_positions() {
    let mut s = MultiLineStream::new("ü+ü".to_owned());
    s.set_position(2);
    assert_eq!(s.next_char(), '+');
    assert_eq!(s.get_position(), 3);
    assert_eq!(s.curr_char_infallible(), 'ü');
    assert_eq!(s.next_char(), 'ü');
    assert_eq!(s.get_position(), 5);
    assert_eq!(s.curr_char_infallible(), '\0');
    s.set_position(9);
    assert_eq!(s.curr_char_infallible(), '\0');
}

#[test]
fn delimiters_after_wide_characters_are_the_characters_there() {
    let mut sc = Scanner::new("ü ~".to_owned(), true, true, false);
    let t = sc.scan();
    assert_eq!(t.token_type, TokenType::Ident);
    let t = sc.scan();
    assert_eq!((t.token_type, t.text.as_str(), t.offset, t.length), (TokenType::Delim, "~", 3, 1));
    let mut sc = Scanner::new("é'a'".to_owned(), true, true, false);
    let _ = sc.scan();
    let t = sc.scan();
    assert_eq!((t.token_type, t.text.as_str(), t.offset, t.length), (TokenType::String, "'a'", 2, 3));
}

#[test]
fn the_end_of_the_text_is_an_empty_token_that_repeats() {
    let mut sc = Scanner::new("/*      abcd*/".to_owned(), true, true, false);
    for _ in 0..3 {
        let t = sc.scan();
        assert_eq!((t.token_type, t.text.as_str(), t.offset, t.length), (TokenType::EOF, "", 14, 0));
        assert_eq!(sc.get_position(), 14);
    }
    let sc = Scanner::new("a\\".to_owned(), true, true, false);
    assert!(!sc.scan_defined());
    let sc = Scanner::new("a\\b".to_owned(), true, true, false);
    assert!(sc.scan_defined());
}
