use profile_ast::ast::Ast;

#[test]
fn implement_rejects_a_bare_identifier_as_first_operand() {
    let e = Ast::parse("implement foo with \"comp\"").unwrap_err();
    assert_eq!(e.span.start, 10);
    assert_eq!(e.span.end, 13);
    assert_eq!(e.msg, "expected a string, found an identifier");
}

#[test]
fn implement_rejects_a_bare_identifier_as_second_operand() {
    let e = Ast::parse("implement \"iface\" with comp").unwrap_err();
    assert_eq!(e.span.start, 23);
    assert_eq!(e.span.end, 27);
    assert_eq!(e.msg, "expected a string, found an identifier");
}

#[test]
fn implement_requires_the_with_keyword() {
    let e = Ast::parse("implement \"iface\" \"comp\"").unwrap_err();
    assert_eq!(e.span.start, 18);
    assert_eq!(e.span.end, 24);
    assert_eq!(e.msg, "expected `with`, found a string");
}

#[test]
fn an_unknown_leading_token_names_all_four_keywords() {
    let e = Ast::parse("foo bar").unwrap_err();
    assert_eq!(e.span.start, 0);
    assert_eq!(e.span.end, 3);
    assert_eq!(
        e.msg,
        "expected `extend`, `provide`, `require`, or `implement`, found an identifier"
    );
}

#[test]
fn a_leading_string_is_no_declaration_either() {
    let e = Ast::parse("\"foo\"").unwrap_err();
    assert_eq!(e.span.start, 0);
    assert_eq!(e.span.end, 5);
    assert_eq!(
        e.msg,
        "expected `extend`, `provide`, `require`, or `implement`, found a string"
    );
}

#[test]
fn a_keyword_operand_is_rejected_where_a_name_is_expected() {
    let e = Ast::parse("extend with").unwrap_err();
    assert_eq!(e.span.start, 7);
    assert_eq!(e.span.end, 11);
    assert_eq!(e.msg, "expected an identifier or string, found `with`");
}

#[test]
fn input_ending_after_a_keyword_reports_end_of_input() {
    let e = Ast::parse("provide").unwrap_err();
    assert_eq!(e.span.start, 7);
    assert_eq!(e.span.end, 7);
    assert_eq!(e.msg, "expected an identifier or string, found end of input");
}

#[test]
fn input_ending_after_with_reports_end_of_input() {
    let e = Ast::parse("implement \"i\" with").unwrap_err();
    assert_eq!(e.span.start, 18);
    assert_eq!(e.span.end, 18);
    assert_eq!(e.msg, "expected a string, found end of input");
}

#[test]
fn an_unrecognized_character_is_a_lexical_error() {
    let e = Ast::parse("extend $name").unwrap_err();
    assert_eq!(e.span.start, 7);
    assert_eq!(e.span.end, 8);
    assert_eq!(e.msg, "expected a token, found an unrecognized character");
}

#[test]
fn a_lone_slash_is_no_comment() {
    let e = Ast::parse("/ oops").unwrap_err();
    assert_eq!(e.span.start, 0);
    assert_eq!(e.span.end, 1);
    assert_eq!(e.msg, "expected a token, found an unrecognized character");
}

#[test]
fn an_unterminated_string_reports_its_whole_tail() {
    let e = Ast::parse("extend \"abc").unwrap_err();
    assert_eq!(e.span.start, 7);
    assert_eq!(e.span.end, 11);
    assert_eq!(e.msg, "expected a closing quote, found end of input");
}

#[test]
fn an_invalid_escape_is_a_lexical_error() {
    let e = Ast::parse("extend \"a\\x\"").unwrap_err();
    assert_eq!(e.span.start, 9);
    assert_eq!(e.span.end, 11);
    assert_eq!(
        e.msg,
        "expected a valid escape character, found an invalid escape"
    );
}

#[test]
fn the_first_error_aborts_the_parse() {
    // the second declaration is fine, but the first one fails and nothing
    // past it is looked at
    let e = Ast::parse("implement foo with \"c\"\nextend base").unwrap_err();
    assert_eq!(e.span.start, 10);
    assert_eq!(e.span.end, 13);
}

#[test]
fn a_doc_run_before_a_lexical_error_still_fails() {
    let e = Ast::parse("// doc\n$").unwrap_err();
    assert_eq!(e.span.start, 7);
    assert_eq!(e.span.end, 8);
    assert_eq!(e.msg, "expected a token, found an unrecognized character");
}
