use csslancer::css_node_types::CssNodeType;
use csslancer::css_nodes::{CssNode, ParseError};
use csslancer::css_parser::Parser;
use csslancer::css_parts::ParseFn;
use csslancer::css_scanner::TokenType;
use ego_tree::NodeId;

fn parser(text: &str) -> Parser {
    Parser::new_with_text(text.to_owned()).unwrap()
}

fn value(p: &Parser, id: NodeId) -> &CssNode {
    p.tree.get(id).unwrap().value()
}

fn unknown_at_rule(text: &str) -> (Parser, NodeId) {
    let mut p = parser(text);
    let n = p.parse_unknown_at_rule().unwrap();
    (p, n)
}

fn errors(node: &CssNode) -> Vec<ParseError> {
    node.issues.iter().map(|m| m.error).collect()
}

#[test]
fn a_text_ending_in_a_backslash_has_no_parser() {
    assert!(Parser::new_with_text("a\\".to_owned()).is_none());
    assert!(Parser::new_with_text("a\\b".to_owned()).is_some());
    assert!(Parser::new_with_text(String::new()).is_some());
}

#[test]
fn unknown_at_rules_end_at_a_semicolon_or_their_block() {
    let (p, n) = unknown_at_rule("@unknown-rule;");
    let v = value(&p, n);
    assert_eq!((v.offset, v.length), (0, 13));
    assert!(v.issues.is_empty());
    assert_eq!(p.token.token_type, TokenType::SemiColon);
    let kids = p.tree.get(n).unwrap().children();
    assert_eq!(kids.len(), 1);
    let name = value(&p, kids[0]);
    assert_eq!((name.offset, name.length), (0, 13));
    assert!(matches!(name.node_type, CssNodeType::Undefined));

    let (p, n) = unknown_at_rule("@unknown-rule 'foo';");
    assert!(value(&p, n).issues.is_empty());
    assert_eq!(p.token.token_type, TokenType::SemiColon);

    let (p, n) = unknown_at_rule("@unknown-rule (foo) {} .foo {}");
    assert!(value(&p, n).issues.is_empty());
    assert_eq!(p.token.token_type, TokenType::Delim);
    assert_eq!(p.token.offset, 23);

    let (p, n) = unknown_at_rule("@unknown-rule (foo) { .bar {} }");
    assert!(value(&p, n).issues.is_empty());
    assert_eq!(p.token.token_type, TokenType::EOF);

    let (p, n) = unknown_at_rule("@unknown-rule {a;b} }");
    assert!(value(&p, n).issues.is_empty());
    assert_eq!(p.token.token_type, TokenType::CurlyR);
    assert_eq!(p.token.offset, 20);
}

#[test]
fn unknown_at_rules_report_unbalanced_brackets() {
    let (p, n) = unknown_at_rule("@unknown-rule (;");
    let v = value(&p, n);
    assert_eq!(errors(v), vec![ParseError::RightParenthesisExpected]);
    assert_eq!((v.issues[0].offset, v.issues[0].length), (16, 0));
    assert_eq!((v.offset, v.length), (0, 16));

    let (p, n) = unknown_at_rule("@unknown-rule [foo");
    assert_eq!(errors(value(&p, n)), vec![ParseError::RightSquareBracketExpected]);

    let (p, n) = unknown_at_rule("@unknown-rule { [foo }");
    assert_eq!(errors(value(&p, n)), vec![ParseError::RightSquareBracketExpected]);

    let (p, n) = unknown_at_rule("@unknown-rule (foo) {");
    assert_eq!(errors(value(&p, n)), vec![ParseError::RightCurlyExpected]);

    let (p, n) = unknown_at_rule("@unknown-rule (foo) { .bar {}");
    assert_eq!(errors(value(&p, n)), vec![ParseError::RightCurlyExpected]);

    let (p, n) = unknown_at_rule("@unknown-rule a) b");
    let v = value(&p, n);
    assert_eq!(errors(v), vec![ParseError::LeftParenthesisExpected]);
    assert_eq!(v.length, 15);
    assert_eq!(p.token.token_type, TokenType::ParenthesisR);

    let (p, n) = unknown_at_rule("@unknown-rule (a }");
    assert_eq!(errors(value(&p, n)), vec![ParseError::LeftCurlyExpected]);
}

#[test]
fn only_an_at_keyword_starts_an_unknown_at_rule() {
    let mut p = parser("foo { }");
    assert!(p.parse_unknown_at_rule().is_none());
    assert_eq!(p.token.token_type, TokenType::Ident);
    assert_eq!(p.token.offset, 0);
}

#[test]
fn custom_property_values_run_to_the_end_of_the_declaration() {
    let mut p = parser("red blue; next");
    let n = p.parse_custom_property_value(&[TokenType::CurlyR]);
    let v = value(&p, n);
    assert!(matches!(v.node_type, CssNodeType::CustomPropertyValue));
    assert_eq!((v.offset, v.length), (0, 8));
    assert!(v.issues.is_empty());
    assert_eq!(p.token.token_type, TokenType::SemiColon);

    let mut p = parser("{ a: b; } !important");
    let n = p.parse_custom_property_value(&[TokenType::CurlyR]);
    let v = value(&p, n);
    assert!(v.issues.is_empty());
    assert_eq!(v.length, 9);
    assert_eq!(p.token.token_type, TokenType::Exclamation);

    let mut p = parser("a (x) }");
    let n = p.parse_custom_property_value(&[TokenType::CurlyR]);
    assert!(value(&p, n).issues.is_empty());
    assert_eq!(p.token.token_type, TokenType::CurlyR);
}

#[test]
fn custom_property_values_report_unbalanced_brackets() {
    let mut p = parser("(x");
    let n = p.parse_custom_property_value(&[TokenType::CurlyR]);
    assert_eq!(errors(value(&p, n)), vec![ParseError::RightParenthesisExpected]);

    let mut p = parser("[x");
    let n = p.parse_custom_property_value(&[TokenType::CurlyR]);
    assert_eq!(errors(value(&p, n)), vec![ParseError::RightSquareBracketExpected]);

    let mut p = parser("x");
    let n = p.parse_custom_property_value(&[TokenType::CurlyR]);
    assert_eq!(errors(value(&p, n)), vec![ParseError::RightCurlyExpected]);

    let mut p = parser("x }");
    let n = p.parse_custom_property_value(&[]);
    assert_eq!(errors(value(&p, n)), vec![ParseError::LeftCurlyExpected]);

    let mut p = parser("x )");
    let n = p.parse_custom_property_value(&[TokenType::ParenthesisR]);
    assert!(value(&p, n).issues.is_empty());

    let mut p = parser("x ]");
    let n = p.parse_custom_property_value(&[TokenType::BracketR]);
    assert_eq!(errors(value(&p, n)), vec![ParseError::LeftSquareBracketExpected]);
}

#[test]
fn rule_ids_are_distinct_and_prefixed() {
    let all = vec![
        ParseError::NumberExpected,
        ParseError::ConditionExpected,
        ParseError::RuleOrSelectorExpected,
        ParseError::DotExpected,
        ParseError::ColonExpected,
        ParseError::SemiColonExpected,
        ParseError::TermExpected,
        ParseError::ExpressionExpected,
        ParseError::OperatorExpected,
        ParseError::IdentifierExpected,
        ParseError::PercentageExpected,
        ParseError::URIOrStringExpected,
        ParseError::URIExpected,
        ParseError::VariableNameExpected,
        ParseError::VariableValueExpected,
        ParseError::PropertyValueExpected,
        ParseError::LeftCurlyExpected,
        ParseError::RightCurlyExpected,
        ParseError::LeftSquareBracketExpected,
        ParseError::RightSquareBracketExpected,
        ParseError::LeftParenthesisExpected,
        ParseError::RightParenthesisExpected,
        ParseError::CommaExpected,
        ParseError::PageDirectiveOrDeclarationExpected,
        ParseError::UnknownAtRule,
        ParseError::UnknownKeyword,
        ParseError::SelectorExpected,
        ParseError::StringLiteralExpected,
        ParseError::WhitespaceExpected,
        ParseError::MediaQueryExpected,
        ParseError::IdentifierOrWildcardExpected,
        ParseError::WildcardExpected,
        ParseError::IdentifierOrVariableExpected,

    ];
    let ids: Vec<String> = all.iter().map(|e| e.issue().rule.id.to_string()).collect();
    for (i, id) in ids.iter().enumerate() {
        assert!(id.starts_with("css-") && id.len() > 4);
        assert!(!all[i].issue().rule.message.is_empty());
        for other in &ids[i + 1..] {
            assert_ne!(id, other);
        }
    }
}

#[test]
fn single_token_nodes() {
    let mut p = parser("+ 12px 'a' & foo");
    let n = p.parse_unary_operator().unwrap();
    assert_eq!((value(&p, n).offset, value(&p, n).length), (0, 1));
    assert!(p.parse_unary_operator().is_none());
    let n = p.parse_numeric().unwrap();
    assert!(matches!(value(&p, n).node_type, CssNodeType::NumericValue));
    assert_eq!((value(&p, n).offset, value(&p, n).length), (2, 4));
    let n = p.parse_string_literal().unwrap();
    assert_eq!((value(&p, n).offset, value(&p, n).length), (7, 3));
    assert!(p.parse_operator().is_none());
    let n = p.parse_nesting_selector().unwrap();
    assert!(matches!(value(&p, n).node_type, CssNodeType::SelectorCombinator));
    let n = p.parse_ident(None).unwrap();
    match &value(&p, n).node_type {
        CssNodeType::Identifier(i) => assert!(!i.is_custom_property && i.reference_types.is_none()),
        _ => panic!("expected an identifier"),
    }
    assert_eq!(p.token.token_type, TokenType::EOF);

    let mut p = parser("--x / |=");
    let n = p.parse_ident(Some(&[csslancer::css_node_types::ReferenceType::Variable])).unwrap();
    match &value(&p, n).node_type {
        CssNodeType::Identifier(i) => {
            assert!(i.is_custom_property);
            assert_eq!(i.reference_types.as_ref().map(|v| v.len()), Some(1));
        }
        _ => panic!("expected an identifier"),
    }
    assert!(p.parse_operator().is_some());
    let n = p.parse_operator().unwrap();
    assert!(matches!(value(&p, n).node_type, CssNodeType::Operator));
    assert_eq!((value(&p, n).offset, value(&p, n).length), (6, 2));
}

#[test]
fn priorities_need_important() {
    let mut p = parser("! IMPORTANT;");
    let n = p.parse_prio().unwrap();
    assert!(matches!(value(&p, n).node_type, CssNodeType::Prio));
    assert_eq!((value(&p, n).offset, value(&p, n).length), (0, 11));
    assert_eq!(p.token.token_type, TokenType::SemiColon);

    let mut p = parser("!imp");
    assert!(p.parse_prio().is_none());
    assert_eq!(p.token.token_type, TokenType::Ident);

    let mut p = parser("important");
    assert!(p.parse_prio().is_none());
    assert_eq!(p.token.offset, 0);
}

#[test]
fn resyncing_skips_to_a_token() {
    let mut p = parser("a b ; c } d");
    assert!(p.resync(Some(&[TokenType::SemiColon]), None));
    assert_eq!(p.token.token_type, TokenType::Ident);
    assert_eq!(p.token.offset, 6);
    assert!(p.resync(None, Some(&[TokenType::CurlyR])));
    assert_eq!(p.token.token_type, TokenType::CurlyR);
    assert!(!p.resync(Some(&[TokenType::Colon]), None));
    assert_eq!(p.token.token_type, TokenType::EOF);
}

#[test]
fn a_mark_brings_the_parser_back() {
    let mut p = parser("a b c");
    p.consume_token();
    let m = p.mark();
    assert!(p.has_whitespace());
    p.consume_token();
    assert_eq!(p.token.offset, 4);
    p.restore_at_mark(m);
    assert_eq!(p.token.offset, 2);
    assert!(p.accept_ident("b"));
    assert!(!p.accept_delim("*"));
    assert!(p.peek_one(&[TokenType::Comma, TokenType::Ident]));
}

#[test]
fn property_names_allow_an_old_hack() {
    let mut p = parser("color: red");
    let n = p.parse_property().unwrap();
    let v = value(&p, n);
    assert_eq!((v.offset, v.length), (0, 5));
    let kids = p.tree.get(n).unwrap().children();
    assert_eq!(kids.len(), 1);
    assert!(matches!(value(&p, kids[0]).node_type, CssNodeType::Identifier(_)));
    assert_eq!(p.token.token_type, TokenType::Colon);

    let mut p = parser("*zoom: 1");
    let n = p.parse_property().unwrap();
    assert_eq!((value(&p, n).offset, value(&p, n).length), (0, 5));

    let mut p = parser("* zoom: 1");
    assert!(p.parse_property().is_none());
    assert_eq!(p.token.offset, 0);

    let mut p = parser(": 1");
    assert!(p.parse_property().is_none());
    assert_eq!(p.token.token_type, TokenType::Colon);
}

#[test]
fn unicode_ranges_after_u() {
    let mut p = parser("u+0021-007F, x");
    let n = p.parse_unicode_range().unwrap();
    assert_eq!(value(&p, n).offset, 0);
    assert_eq!(p.token.token_type, TokenType::Comma);
    assert_eq!(p.token.offset, 11);

    let mut p = parser("u+, x");
    assert!(p.parse_unicode_range().is_none());
    assert_eq!(p.token.offset, 0);

    let mut p = parser("v+1");
    assert!(p.parse_unicode_range().is_none());
}

#[test]
fn a_failed_priority_is_undone() {
    let mut p = parser("!important x");
    assert!(p._tryparse_prio().is_some());
    assert_eq!(p.token.offset, 11);
    let mut p = parser("! x");
    assert!(p._tryparse_prio().is_none());
    assert_eq!(p.token.offset, 0);
    assert_eq!(p.token.token_type, TokenType::Exclamation);
}

#[test]
fn class_and_id_selectors_need_a_touching_name() {
    let mut p = parser(".foo x");
    let n = p.parse_class().unwrap();
    let v = value(&p, n);
    assert!(matches!(v.node_type, CssNodeType::ClassSelector));
    assert_eq!((v.offset, v.length), (0, 4));
    assert!(v.issues.is_empty());
    assert_eq!(p.tree.get(n).unwrap().children().len(), 1);

    let mut p = parser(". foo");
    let n = p.parse_class().unwrap();
    assert_eq!(errors(value(&p, n)), vec![ParseError::IdentifierExpected]);
    assert_eq!(value(&p, n).length, 1);
    assert_eq!(p.token.token_type, TokenType::Ident);

    let mut p = parser("#main");
    let n = p.parse_hash().unwrap();
    assert!(matches!(value(&p, n).node_type, CssNodeType::IdentifierSelector));
    assert_eq!((value(&p, n).offset, value(&p, n).length), (0, 5));
    assert!(p.tree.get(n).unwrap().children().is_empty());

    let mut p = parser("x");
    assert!(p.parse_class().is_none());
    assert!(p.parse_hash().is_none());
}

/// Parses `text` with `f`, which must give a node with no issues in its subtree and
/// leave the parser at the end of the text.
fn assert_parse_node<F: FnMut(&mut Parser) -> Option<NodeId>>(text: &str, mut f: F) {
    let mut p = parser(text);
    let n = f(&mut p);
    assert!(n.is_some(), "failed parsing node: {}", text);
    let mut stack = vec![n.unwrap()];
    while let Some(id) = stack.pop() {
        assert!(value(&p, id).issues.is_empty(), "node has errors: {}", text);
        stack.extend(p.tree.get(id).unwrap().children());
    }
    assert!(p.accept(TokenType::EOF), "expect scanner at EOF: {}", text);
}

#[test]
fn css_parser_operator() {
    assert_parse_node("/", |p| p.parse_operator());
    assert_parse_node("*", |p| p.parse_operator());
    assert_parse_node("+", |p| p.parse_operator());
    assert_parse_node("-", |p| p.parse_operator());
}

#[test]
fn css_parser_unary_operator() {
    assert_parse_node("-", |p| p.parse_unary_operator());
    assert_parse_node("+", |p| p.parse_unary_operator());
}

#[test]
fn css_parser_property() {
    assert_parse_node("asdsa", |p| p.parse_property());
    assert_parse_node("asdsa334", |p| p.parse_property());

    assert_parse_node("--color", |p| p.parse_property());
    assert_parse_node("--primary-font", |p| p.parse_property());
    assert_parse_node("-color", |p| p.parse_property());
    assert_parse_node("somevar", |p| p.parse_property());
    assert_parse_node("some--let", |p| p.parse_property());
    assert_parse_node("somevar--", |p| p.parse_property());
}

#[test]
fn css_parser_test_token_prio() {
    assert_parse_node("!important", |p| p.parse_prio());
    assert_parse_node("!/*demo*/important", |p| p.parse_prio());
    assert_parse_node("! /*demo*/ important", |p| p.parse_prio());
    assert_parse_node("! /*dem o*/  important", |p| p.parse_prio());
}

#[test]
fn css_parser_prio() {
    assert_parse_node("!important", |p| p.parse_prio());
}

#[test]
fn css_parser_hexcolor() {
    assert_parse_node("#FFF", |p| p.parse_hex_color());
    assert_parse_node("#FFFF", |p| p.parse_hex_color());
    assert_parse_node("#FFFFFF", |p| p.parse_hex_color());
    assert_parse_node("#FFFFFFFF", |p| p.parse_hex_color());
}

#[test]
fn hashes_that_are_no_colors() {
    let mut p = parser("#FFG");
    assert!(p.parse_hex_color().is_none());
    let mut p = parser("#xyzABCD");
    assert!(p.parse_hex_color().is_some());
    let mut p = parser("#ab");
    assert!(p.parse_hex_color().is_none());
}

#[test]
fn named_grid_lines() {
    let mut p = parser("[main-start header] x");
    let n = p.parse_named_line().unwrap();
    let v = value(&p, n);
    assert!(matches!(v.node_type, CssNodeType::GridLine));
    assert_eq!((v.offset, v.length), (0, 19));
    assert!(v.issues.is_empty());
    let kids = p.tree.get(n).unwrap().children();
    assert_eq!(kids.len(), 2);
    assert_eq!((value(&p, kids[1]).offset, value(&p, kids[1]).length), (12, 6));
    assert_eq!(p.token.token_type, TokenType::Ident);

    let mut p = parser("[a b");
    let n = p.parse_named_line().unwrap();
    assert_eq!(errors(value(&p, n)), vec![ParseError::RightSquareBracketExpected]);
    assert_eq!(p.tree.get(n).unwrap().children().len(), 2);

    let mut p = parser("[]");
    let n = p.parse_named_line().unwrap();
    assert!(p.tree.get(n).unwrap().children().is_empty());
    assert!(value(&p, n).issues.is_empty());

    let mut p = parser("a");
    assert!(p.parse_named_line().is_none());
}

/// Parses `text` with `f`, which must give a node whose subtree reports `error` first.
fn assert_parse_error<F: FnMut(&mut Parser) -> Option<NodeId>>(text: &str, mut f: F, error: ParseError) {
    let mut p = parser(text);
    let n = f(&mut p);
    assert!(n.is_some(), "failed parsing node: {}", text);
    let mut stack = vec![n.unwrap()];
    let mut markers = Vec::new();
    while let Some(id) = stack.pop() {
        for m in value(&p, id).issues.iter() {
            markers.push((m.offset, m.error));
        }
        stack.extend(p.tree.get(id).unwrap().children());
    }
    assert!(!markers.is_empty(), "node has no errors: {}", text);
    markers.sort_by_key(|m| m.0);
    assert_eq!(markers[0].1, error, "wrong error: {}", text);
}

#[test]
fn css_parser_test_class() {
    assert_parse_node(".faa", |p: &mut Parser| p.parse_class());
    assert_parse_node("faa", |p: &mut Parser| p.parse_element_name());
    assert_parse_node("*", |p: &mut Parser| p.parse_element_name());
    assert_parse_node(".faa42", |p: &mut Parser| p.parse_class());
}

#[test]
fn css_parser_element_name() {
    assert_parse_node("name", |p: &mut Parser| p.parse_element_name());
    assert_parse_node("*", |p: &mut Parser| p.parse_element_name());
    assert_parse_node("foo|h1", |p: &mut Parser| p.parse_element_name());
    assert_parse_node("foo|*", |p: &mut Parser| p.parse_element_name());
    assert_parse_node("|h1", |p: &mut Parser| p.parse_element_name());
    assert_parse_node("*|h1", |p: &mut Parser| p.parse_element_name());
}

#[test]
fn css_parser_url() {
    let url = |p: &mut Parser| p.parse_uri_literal();
    assert_parse_node("url(//yourdomain/yourpath.png)", url);
    assert_parse_node("url('http://msft.com')", url);
    assert_parse_node("url(\"http://msft.com\")", url);
    assert_parse_node("url( \"http://msft.com\")", url);
    assert_parse_node("url(\t\"http://msft.com\")", url);
    assert_parse_node("url(\n\"http://msft.com\")", url);
    assert_parse_node("url(\"http://msft.com\"\n)", url);
    assert_parse_node("url(\"\")", url);
    assert_parse_node("uRL(\"\")", url);
    assert_parse_node("URL(\"\")", url);
    assert_parse_node("url(http://msft.com)", url);
    assert_parse_node("url()", url);
    assert_parse_node("url('http://msft.com\n)", url);
    assert_parse_error("url(\"http://msft.com\"", url, ParseError::RightParenthesisExpected);
    assert_parse_error("url(http://msft.com')", url, ParseError::RightParenthesisExpected);
}

#[test]
fn a_url_needs_its_name_touching_the_parenthesis() {
    let mut p = parser("url (x)");
    assert!(p.parse_uri_literal().is_none());
    assert_eq!(p.token.token_type, TokenType::Ident);
    assert_eq!(p.token.offset, 0);
    let mut p = parser("url-prefix(x)");
    let n = p.parse_uri_literal().unwrap();
    assert_eq!((value(&p, n).offset, value(&p, n).length), (0, 13));
    let mut p = parser("urls(x)");
    assert!(p.parse_uri_literal().is_none());
}

#[test]
fn an_unquoted_url_argument_runs_to_the_parenthesis() {
    let mut p = parser("url(a/b.png)");
    let n = p.parse_uri_literal().unwrap();
    let kids = p.tree.get(n).unwrap().children();
    assert_eq!(kids.len(), 1);
    assert_eq!((value(&p, kids[0]).offset, value(&p, kids[0]).length), (4, 7));
    assert_eq!(p.token.token_type, TokenType::EOF);
}

#[test]
fn function_names_take_progid_filters() {
    let mut p = parser("progid:DXImageTransform.Microsoft.MotionBlur(");
    let n = p.parse_function_identifier().unwrap();
    assert_eq!((value(&p, n).offset, value(&p, n).length), (0, 44));
    assert_eq!(p.token.token_type, TokenType::ParenthesisL);
    let mut p = parser("rgb(");
    let n = p.parse_function_identifier().unwrap();
    assert_eq!(value(&p, n).length, 3);
    assert!(parser("(").parse_function_identifier().is_none());
}

#[test]
fn a_namespace_prefix_needs_a_bar() {
    let mut p = parser("foo bar");
    assert!(p.parse_namespace_prefix().is_none());
    assert_eq!(p.token.offset, 0);
    let mut p = parser("foo|bar");
    let n = p.parse_namespace_prefix().unwrap();
    assert_eq!((value(&p, n).offset, value(&p, n).length), (0, 4));
    assert_eq!(p.tree.get(n).unwrap().children().len(), 1);
    let mut p = parser("|bar");
    assert!(p.parse_element_name().is_some());
    let mut p = parser("+");
    assert!(p.parse_element_name().is_none());
    assert_eq!(p.token.offset, 0);
}

#[test]
fn ratios_need_a_slash_and_report_a_missing_number() {
    let mut p = parser("16/9");
    let n = p.parse_ratio().unwrap();
    assert_eq!((value(&p, n).offset, value(&p, n).length), (0, 4));
    assert!(value(&p, n).issues.is_empty());
    assert_eq!(p.token.token_type, TokenType::EOF);

    let mut p = parser("16 x");
    assert!(p.parse_ratio().is_none());
    assert_eq!(p.token.offset, 0);

    let mut p = parser("16/");
    let n = p.parse_ratio().unwrap();
    assert_eq!(errors(value(&p, n)), vec![ParseError::NumberExpected]);

    let mut p = parser("x");
    assert!(p.parse_ratio().is_none());
    assert_eq!(p.token.token_type, TokenType::Ident);
}

#[test]
fn media_range_operators() {
    let mut p = parser("<= 5");
    assert!(p.parse_media_feature_range_operator());
    assert_eq!(p.token.token_type, TokenType::Num);

    let mut p = parser("< = 5");
    assert!(p.parse_media_feature_range_operator());
    assert_eq!(p.token.token_type, TokenType::Delim);
    assert_eq!(p.token.offset, 2);

    let mut p = parser("= 5");
    assert!(p.parse_media_feature_range_operator());
    assert_eq!(p.token.token_type, TokenType::Num);

    let mut p = parser(">5");
    assert!(p.parse_media_feature_range_operator());

    let mut p = parser("x");
    assert!(!p.parse_media_feature_range_operator());
    assert_eq!(p.token.offset, 0);

    let mut p = parser("width");
    assert!(p.parse_media_feature_name().is_some());
}

#[test]
fn combinators() {
    let kind = |text: &str| {
        let mut p = parser(text);
        let n = p.parse_combinator().unwrap();
        (std::mem::discriminant(&value(&p, n).node_type), value(&p, n).length, p.token.token_type)
    };
    let d = |t: CssNodeType| std::mem::discriminant(&t);
    assert_eq!(kind("+"), (d(CssNodeType::SelectorCombinatorSibling), 1, TokenType::EOF));
    assert_eq!(kind("+  "), (d(CssNodeType::SelectorCombinatorSibling), 1, TokenType::EOF));
    assert_eq!(kind("~ a"), (d(CssNodeType::SelectorCombinatorAllSiblings), 1, TokenType::Ident));
    assert_eq!(kind(">  "), (d(CssNodeType::SelectorCombinatorParent), 1, TokenType::EOF));
    assert_eq!(kind(">"), (d(CssNodeType::SelectorCombinatorParent), 1, TokenType::EOF));
    assert_eq!(kind(">>>"), (d(CssNodeType::SelectorCombinatorShadowPiercingDescendant), 3, TokenType::EOF));
    assert_eq!(kind(">>a"), (d(CssNodeType::SelectorCombinatorParent), 1, TokenType::Delim));
    assert_eq!(kind("> >"), (d(CssNodeType::SelectorCombinatorParent), 1, TokenType::Delim));
    assert_eq!(kind("/deep/"), (d(CssNodeType::SelectorCombinatorShadowPiercingDescendant), 6, TokenType::EOF));

    let mut p = parser("/deep x");
    assert!(p.parse_combinator().is_none());
    assert_eq!((p.token.token_type, p.token.offset), (TokenType::Ident, 1));
    assert!(parser("a").parse_combinator().is_none());
}

#[test]
fn parsing_a_text_with_one_parse_function() {
    let t = Parser::parse_fn("foo bar".to_owned(), ParseFn::Ident).unwrap();
    assert_eq!(t.1, "foo bar");
    let v = t.0.0.nodes().map(|n| (n.value().offset, n.value().length)).collect::<Vec<_>>();
    assert!(v.contains(&(0, 3)));
    assert!(Parser::parse_fn("+".to_owned(), ParseFn::Ident).is_none());
    assert!(Parser::parse_fn("foo\\".to_owned(), ParseFn::Ident).is_none());
    assert!(Parser::parse_fn("url(a)".to_owned(), ParseFn::UriLiteral).is_some());
    assert!(Parser::parse_fn("16/9".to_owned(), ParseFn::Ratio).is_some());
}

#[test]
fn a_node_parsed_into_a_tree_hangs_under_the_root() {
    let p = parser("[a b]");
    let root = p.root;
    let t = p.into_parsed_by_fn(ParseFn::NamedLine).unwrap();
    let kids = t.0.get(root).unwrap().children();
    assert_eq!(kids.len(), 1);
    let v = t.0.get(kids[0]).unwrap().value();
    assert_eq!((v.offset, v.length), (0, 5));
    assert!(parser("a").into_parsed_by_fn(ParseFn::NamedLine).is_none());
}

#[test]
fn css_parser_medium() {
    assert_parse_node("somename", |p: &mut Parser| p.parse_medium());
    assert_parse_node("-asdas", |p: &mut Parser| p.parse_medium());
    assert_parse_node("-asda34s", |p: &mut Parser| p.parse_medium());
}

#[test]
fn charsets_need_a_string_and_a_semicolon() {
    let mut p = parser("@charset \"utf-8\";");
    let n = p.parse_charset().unwrap();
    assert!(value(&p, n).issues.is_empty());
    assert_eq!((value(&p, n).offset, value(&p, n).length), (0, 17));
    assert_eq!(p.token.token_type, TokenType::EOF);

    let mut p = parser("@charset ;");
    let n = p.parse_charset().unwrap();
    assert_eq!(errors(value(&p, n)), vec![ParseError::IdentifierExpected]);

    let mut p = parser("@charset \"utf-8\" a");
    let n = p.parse_charset().unwrap();
    assert_eq!(errors(value(&p, n)), vec![ParseError::SemiColonExpected]);

    assert!(parser("@media").parse_charset().is_none());
}

#[test]
fn names_that_are_identifiers() {
    let mut p = parser("color: red");
    let n = p.parse_property_identifier().unwrap();
    assert_eq!((value(&p, n).offset, value(&p, n).length), (0, 5));
    assert_eq!(p.token.token_type, TokenType::Colon);
    assert!(parser(":x").parse_property_identifier().is_none());

    let mut p = parser("h1.a");
    assert!(p.parse_selector_ident().is_some());
    assert_eq!(p.token.token_type, TokenType::Delim);

    let mut p = parser("spin {");
    let n = p.parse_keyframe_ident().unwrap();
    match &value(&p, n).node_type {
        CssNodeType::Identifier(i) => {
            assert_eq!(i.reference_types.as_ref().map(|v| v.len()), Some(1));
        },
        _ => panic!("not an identifier"),
    }
}
