use csslancer::astgen::{normalize_newlines, to_upper_snake_case};
use csslancer::config::{config_sections, config_value_choices, ConstConfig, PositionEncoding, SemanticTokensMode};
use csslancer::entry::{markify_string, text_to_marked_string, text_to_marked_string_inner, MarkedString};
use csslancer::ext::{FsPathToUriError, LocalFs, PathExt, Position, PositionDelta, PositionExt, StrExt};
use csslancer::fuzz::{all_css, AT_RULES_CSS, UNIVERSAL_SELECTORS_CSS};

#[test]
fn markify_escapes_markdown_and_html() {
    let mut s = "a<b>*c [d](e) \\ #1+2-3.4!".to_owned();
    markify_string(&mut s);
    assert_eq!(s, "a&lt;b&gt;\\*c \\[d\\]\\(e\\) \\\\ \\#1\\+2\\-3\\.4\\!");
    assert_eq!(text_to_marked_string_inner("`x`".to_owned()), "\\`x\\`");
    match text_to_marked_string("{ok}".to_owned()) {
        MarkedString::String(t) => assert_eq!(t, "\\{ok\\}"),
        _ => panic!("expected a plain string"),
    }
    let mut under = "a_b".to_owned();
    markify_string(&mut under);
    assert_eq!(under, "a\\_b");
    let mut plain = "plain text".to_owned();
    markify_string(&mut plain);
    assert_eq!(plain, "plain text");
}

#[test]
fn encoded_len_counts_units() {
    assert_eq!("a😀é".encoded_len(PositionEncoding::Utf8), 7);
    assert_eq!("a😀é".encoded_len(PositionEncoding::Utf16), 4);
    assert_eq!("".encoded_len(PositionEncoding::Utf16), 0);
}

#[test]
fn position_deltas() {
    let a = Position { line: 2, character: 5 };
    let b = Position { line: 2, character: 9 };
    let c = Position { line: 4, character: 1 };
    assert_eq!(a.delta(&b), PositionDelta { delta_line: 0, delta_start: 4 });
    assert_eq!(a.delta(&c), PositionDelta { delta_line: 2, delta_start: 1 });
    assert_eq!(a.delta(&a), PositionDelta::default());
}

#[test]
fn paths_and_uris() {
    assert_eq!(LocalFs::path_to_uri("relative/x.css").unwrap_err(), FsPathToUriError::NotAbsolute);
    assert_eq!(LocalFs::path_to_uri("").unwrap_err(), FsPathToUriError::NotAbsolute);
    let uri = LocalFs::path_to_uri("/tmp/a b.css").unwrap();
    assert_eq!(uri.as_str(), "file:///tmp/a%20b.css");
    assert_eq!(FsPathToUriError::NotAbsolute.message(), "cannot convert to URI since path is not absolute");
    assert!("dir/file.csslancer".is_csslancer());
    assert!(!"dir/file.css".is_csslancer());
    assert!(!"csslancer".is_csslancer());
    assert!(!".csslancer".is_csslancer());
}

#[test]
fn all_css_joins_the_samples() {
    let css = all_css();
    assert!(css.starts_with(AT_RULES_CSS));
    assert!(css.ends_with(UNIVERSAL_SELECTORS_CSS));
    assert!(css.starts_with("@charset \"utf-8\";"));
    assert!(css.contains("@container"));
}

#[test]
fn names_in_upper_snake_case() {
    assert_eq!(to_upper_snake_case("fontFace"), "FONT_FACE");
    assert_eq!(to_upper_snake_case("Em"), "EM");
    assert_eq!(to_upper_snake_case("cqmax"), "CQMAX");
    assert_eq!(to_upper_snake_case(""), "");
}

#[test]
fn newlines_are_normalized() {
    assert_eq!(normalize_newlines("a\r\nb\r\n"), "a\nb\n");
    assert_eq!(normalize_newlines("a\rb\n\r"), "a\rb\n\r");
    assert_eq!(normalize_newlines("\r\r\n"), "\r\n");
}

#[test]
fn encoding_prefers_utf8_when_offered() {
    let offered = vec!["utf-16".to_owned(), "utf-8".to_owned()];
    assert_eq!(ConstConfig::choose_encoding(&offered), PositionEncoding::Utf8);
    let offered = vec!["utf-32".to_owned()];
    assert_eq!(ConstConfig::choose_encoding(&offered), PositionEncoding::Utf16);
    let cfg = ConstConfig::from_capabilities(&Vec::new(), true);
    assert_eq!(cfg.position_encoding, PositionEncoding::Utf16);
    assert!(cfg.supports_semantic_tokens_dynamic_registration);
    assert_eq!(SemanticTokensMode::default(), SemanticTokensMode::Enable);
}

#[test]
fn configuration_sections_and_values() {
    assert_eq!(config_sections(), vec!["csslancer.semanticTokens".to_owned(), "semanticTokens".to_owned()]);
    assert_eq!(config_value_choices(&[false, true]), vec![("semanticTokens".to_owned(), 0)]);
    assert_eq!(config_value_choices(&[true, false]), vec![("semanticTokens".to_owned(), 1)]);
    assert_eq!(config_value_choices(&[true]), vec![]);
    assert_eq!(config_value_choices(&[false, false, true, true]), vec![("semanticTokens".to_owned(), 0)]);
}

#[test]
fn mutations_copy_one_run_over_another() {
    use_mutate();
}

fn use_mutate() {
    let mut s = "abcdef".to_owned();
    csslancer::fuzz::mutate_ascii_with(&mut s, 0, 1, 3, 4);
    // characters counted up to byte 1 but not byte 0: "b"; those up to byte 4 but not 3: "e"
    assert_eq!(s, "abcdbf");
    let mut s = "aé€b".to_owned();
    // byte offsets: a=0, é=1, €=3, b=6
    csslancer::fuzz::mutate_ascii_with(&mut s, 0, 3, 1, 2);
    assert_eq!(s, "aéé€€b");
    let mut s = "xyz".to_owned();
    csslancer::fuzz::mutate_ascii(&mut s);
    assert!(s.chars().all(|c| "xyz".contains(c)));
}
