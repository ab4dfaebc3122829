use profile_ast::ast::{Ast, Item};

#[test]
fn empty_input_gives_empty_tree() {
    let ast = Ast::parse("").unwrap();
    assert_eq!(ast.items.len(), 0);
}

#[test]
fn whitespace_and_comments_only_give_empty_tree() {
    let ast = Ast::parse("  \t\r\n // trailing comment\n  ").unwrap();
    assert_eq!(ast.items.len(), 0);
}

#[test]
fn extend_with_string_literal() {
    let ast = Ast::parse("extend \"base\"").unwrap();
    assert_eq!(ast.items.len(), 1);
    match &ast.items[0] {
        Item::Extend(x) => {
            assert_eq!(x.profile.name, b"base".to_vec());
            assert_eq!(x.span.start, 0);
            assert_eq!(x.span.end, 13);
            assert_eq!(x.profile.span.start, 7);
            assert_eq!(x.profile.span.end, 13);
        }
        _ => panic!("expected an Extend declaration"),
    }
}

#[test]
fn extend_with_bare_identifier() {
    let ast = Ast::parse("  extend   base-profile_9 ").unwrap();
    assert_eq!(ast.items.len(), 1);
    match &ast.items[0] {
        Item::Extend(x) => {
            assert_eq!(x.profile.name, b"base-profile_9".to_vec());
            assert_eq!(x.span.start, 2);
            assert_eq!(x.span.end, 25);
        }
        _ => panic!("expected an Extend declaration"),
    }
}

#[test]
fn provide_collects_doc_comments_in_order() {
    let input = "// first line\n// second line\nprovide foo\n";
    let ast = Ast::parse(input).unwrap();
    assert_eq!(ast.items.len(), 1);
    match &ast.items[0] {
        Item::Provide(p) => {
            assert_eq!(p.docs.docs.len(), 2);
            assert_eq!(p.docs.docs[0], b"// first line".to_vec());
            assert_eq!(p.docs.docs[1], b"// second line".to_vec());
            assert_eq!(p.interface.name, b"foo".to_vec());
        }
        _ => panic!("expected a Provide declaration"),
    }
}

#[test]
fn blank_lines_do_not_break_a_doc_run() {
    let input = "// a\n\n\n// b\nprovide x";
    let ast = Ast::parse(input).unwrap();
    match &ast.items[0] {
        Item::Provide(p) => {
            assert_eq!(p.docs.docs.len(), 2);
            assert_eq!(p.docs.docs[0], b"// a".to_vec());
            assert_eq!(p.docs.docs[1], b"// b".to_vec());
        }
        _ => panic!("expected a Provide declaration"),
    }
}

#[test]
fn a_declaration_breaks_doc_attachment() {
    let input = "// for extend\nextend y\n// for provide\nprovide x";
    let ast = Ast::parse(input).unwrap();
    assert_eq!(ast.items.len(), 2);
    match &ast.items[1] {
        Item::Provide(p) => {
            assert_eq!(p.docs.docs.len(), 1);
            assert_eq!(p.docs.docs[0], b"// for provide".to_vec());
        }
        _ => panic!("expected a Provide declaration"),
    }
}

#[test]
fn require_with_quoted_interface() {
    let ast = Ast::parse("require \"wasi:clocks\"").unwrap();
    match &ast.items[0] {
        Item::Require(r) => {
            assert_eq!(r.interface.name, b"wasi:clocks".to_vec());
            assert_eq!(r.docs.docs.len(), 0);
        }
        _ => panic!("expected a Require declaration"),
    }
}

#[test]
fn implement_binds_interface_to_component() {
    let ast = Ast::parse("implement \"iface\" with \"comp\"").unwrap();
    assert_eq!(ast.items.len(), 1);
    match &ast.items[0] {
        Item::Implement(im) => {
            assert_eq!(im.interface, b"iface".to_vec());
            assert_eq!(im.component, b"comp".to_vec());
            assert_eq!(im.span.start, 0);
            assert_eq!(im.span.end, 29);
        }
        _ => panic!("expected an Implement declaration"),
    }
}

#[test]
fn declarations_come_out_in_source_order() {
    let input = "extend a\nprovide b\nrequire c\nimplement \"d\" with \"e\"";
    let ast = Ast::parse(input).unwrap();
    assert_eq!(ast.items.len(), 4);
    assert!(matches!(ast.items[0], Item::Extend(_)));
    assert!(matches!(ast.items[1], Item::Provide(_)));
    assert!(matches!(ast.items[2], Item::Require(_)));
    assert!(matches!(ast.items[3], Item::Implement(_)));
}

#[test]
fn spans_are_increasing_and_disjoint() {
    let input = " extend a \n provide b \n require c ";
    let ast = Ast::parse(input).unwrap();
    let spans: Vec<(usize, usize)> = ast
        .items
        .iter()
        .map(|it| match it {
            Item::Extend(x) => (x.span.start, x.span.end),
            Item::Provide(x) => (x.span.start, x.span.end),
            Item::Require(x) => (x.span.start, x.span.end),
            Item::Implement(x) => (x.span.start, x.span.end),
        })
        .collect();
    for w in spans.windows(2) {
        assert!(w[0].1 <= w[1].0);
    }
}

#[test]
fn span_slices_back_to_the_declaration_text() {
    let input = "  extend foo  \nprovide \"bar\"";
    let ast = Ast::parse(input).unwrap();
    match &ast.items[0] {
        Item::Extend(x) => {
            assert_eq!(&input[x.span.start..x.span.end], "extend foo");
        }
        _ => panic!("expected an Extend declaration"),
    }
    match &ast.items[1] {
        Item::Provide(p) => {
            assert_eq!(&input[p.span.start..p.span.end], "provide \"bar\"");
        }
        _ => panic!("expected a Provide declaration"),
    }
}

#[test]
fn escape_sequences_are_decoded() {
    let ast = Ast::parse("extend \"a\\n\\t\\r\\\\\\\"\"").unwrap();
    match &ast.items[0] {
        Item::Extend(x) => {
            assert_eq!(x.profile.name, b"a\n\t\r\\\"".to_vec());
        }
        _ => panic!("expected an Extend declaration"),
    }
}

#[test]
fn a_keyword_lookalike_identifier_is_a_plain_name() {
    let ast = Ast::parse("provide extendx").unwrap();
    match &ast.items[0] {
        Item::Provide(p) => {
            assert_eq!(p.interface.name, b"extendx".to_vec());
        }
        _ => panic!("expected a Provide declaration"),
    }
}

#[test]
fn quoted_names_may_hold_non_ascii_text() {
    let input = "extend \"caf\u{e9}\"";
    let ast = Ast::parse(input).unwrap();
    match &ast.items[0] {
        Item::Extend(x) => {
            assert_eq!(x.profile.name, "caf\u{e9}".as_bytes().to_vec());
            // spans are byte offsets: the accented letter takes two bytes
            assert_eq!(x.span.end, input.len());
        }
        _ => panic!("expected an Extend declaration"),
    }
}

#[test]
fn quoted_names_may_hold_spaces() {
    let ast = Ast::parse("provide \"iface name\"").unwrap();
    match &ast.items[0] {
        Item::Provide(p) => {
            assert_eq!(p.interface.name, b"iface name".to_vec());
        }
        _ => panic!("expected a Provide declaration"),
    }
}
