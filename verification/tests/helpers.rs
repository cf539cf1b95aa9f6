use std::collections::VecDeque;

use dtsfmt::config::{Config, KeyboardLayout};
use dtsfmt::context::Context;
use dtsfmt::parser::parse;
use dtsfmt::printer::{
    calculate_sizes, collect_bindings, is_preproc, pad_right, print_indent, print_int_strs,
    extract_cells_value, print_tree, traverse, traverse_children, UnhandledToken,
};
use dtsfmt::syntax::SyntaxNode;

fn node(kind: &str, text: &str, named: bool, children: Vec<SyntaxNode>) -> SyntaxNode {
    SyntaxNode { kind: kind.to_string(), text: text.to_string(), named, children }
}

fn token(kind: &str) -> SyntaxNode {
    node(kind, kind, false, vec![])
}

fn config(bindings: Vec<u8>, row_size: usize) -> Config {
    Config { layout: KeyboardLayout { bindings, row_size }, warn_on_unhandled_tokens: false }
}

fn ctx<'a, 'b>(config: &'a Config, indent: usize, identifier: Option<&'b str>) -> Context<'a, 'b> {
    Context {
        indent,
        keymap: false,
        bindings: false,
        identifier,
        address_cells: 2,
        size_cells: 1,
        config,
    }
}

#[test]
fn pad_right_fills_to_the_width_in_characters() {
    assert_eq!(pad_right("ab", 5), "ab   ");
    assert_eq!(pad_right("abcdef", 3), "abcdef");
    assert_eq!(pad_right("\u{e9}", 3), "\u{e9}  ");
    assert_eq!(pad_right("", 0), "");
}

#[test]
fn indentation_is_four_spaces_per_level() {
    let config = config(vec![], 1);
    let mut w = String::from("x");
    print_indent(&mut w, &ctx(&config, 3, None));
    assert_eq!(w, format!("x{}", " ".repeat(12)));
    let mut w = String::new();
    print_indent(&mut w, &ctx(&config, 0, None));
    assert_eq!(w, "");
}

#[test]
fn short_cell_lists_stay_on_one_line() {
    let config = config(vec![], 1);
    let mut w = String::new();
    print_int_strs(&mut w, &["1", "2", "3"], 16, &ctx(&config, 2, Some("reg")));
    assert_eq!(w, "1 2 3");
    let mut w = String::new();
    print_int_strs(&mut w, &[], 4, &ctx(&config, 2, Some("reg")));
    assert_eq!(w, "");
}

#[test]
fn long_cell_lists_are_aligned_after_the_bracket() {
    let config = config(vec![], 1);
    let mut w = String::new();
    print_int_strs(&mut w, &["a", "b", "c", "d", "e"], 2, &ctx(&config, 1, Some("reg")));
    let cont = format!("\n{}{}", " ".repeat(4), " ".repeat(5));
    assert_eq!(w, format!("a b{cont}c d{cont}e", cont = cont));
    let mut w = String::new();
    print_int_strs(&mut w, &["a", "b", "c"], 2, &ctx(&config, 0, None));
    assert_eq!(w, "a b\n  c");
}

#[test]
fn column_sizes_are_the_longest_cell_of_each_column() {
    let buf: VecDeque<String> =
        ["a", "bbb", "cc", "d", "eeee"].iter().map(|s| s.to_string()).collect();
    let sizes = calculate_sizes(&buf, 2);
    assert_eq!(sizes, vec![4, 3]);
    for (j, item) in buf.iter().enumerate() {
        assert!(item.len() <= sizes[j % 2]);
    }
    assert_eq!(calculate_sizes(&buf, 0), Vec::<usize>::new());
    assert_eq!(calculate_sizes(&buf, 7), vec![1, 3, 2, 1, 4, 0, 0]);
    let wide: VecDeque<String> = ["\u{e9}"].iter().map(|s| s.to_string()).collect();
    assert_eq!(calculate_sizes(&wide, 1), vec![2]);
}

#[test]
fn bindings_start_at_each_reference() {
    let config = config(vec![1, 1, 0, 1, 1], 5);
    let cells = node(
        "integer_cells",
        "<...>",
        true,
        vec![
            token("<"),
            node("identifier", " first ", true, vec![]),
            node("reference", "&kp", true, vec![]),
            node("identifier", "A", true, vec![]),
            node("reference", "&mt", true, vec![]),
            node("identifier", "LSHIFT", true, vec![]),
            node("identifier", "B", true, vec![]),
            token(">"),
            node("reference", "&ignored", true, vec![]),
        ],
    );
    let ctx = ctx(&config, 4, Some("bindings"));
    let cells: Vec<String> = collect_bindings(&cells, &ctx).into_iter().collect();
    assert_eq!(cells, vec!["first", "&kp A", "", "&mt LSHIFT B", ""]);
}

#[test]
fn an_empty_binding_list_fills_nothing() {
    let config = config(vec![0, 1], 2);
    let cells = node("integer_cells", "<>", true, vec![token("<"), token(">")]);
    let ctx = ctx(&config, 1, None);
    let cells: Vec<String> = collect_bindings(&cells, &ctx).into_iter().collect();
    assert_eq!(cells, vec!["", ""]);
}

#[test]
fn preprocessor_kinds_are_recognised() {
    assert!(is_preproc(&token("preproc_include")));
    assert!(is_preproc(&token("preproc_def")));
    assert!(is_preproc(&token("preproc_function_def")));
    assert!(is_preproc(&token("preproc_ifdef")));
    assert!(!is_preproc(&token("preproc_if")));
    assert!(!is_preproc(&token("node")));
}

#[test]
fn a_closing_brace_at_the_top_cannot_be_printed() {
    let config = config(vec![], 1);
    let root = node("document", "}", true, vec![token("}")]);
    let mut unhandled: Vec<UnhandledToken> = Vec::new();
    assert_eq!(print_tree(&root, &config, &mut unhandled), None);
}

#[test]
fn a_node_without_children_cannot_be_printed() {
    let config = config(vec![], 1);
    let root = node("document", "x", true, vec![node("node", "x", true, vec![])]);
    let mut unhandled: Vec<UnhandledToken> = Vec::new();
    assert_eq!(print_tree(&root, &config, &mut unhandled), None);
}

#[test]
fn a_file_without_items_prints_nothing() {
    let config = config(vec![], 1);
    let root = node("document", "", true, vec![]);
    let mut unhandled: Vec<UnhandledToken> = Vec::new();
    assert_eq!(print_tree(&root, &config, &mut unhandled).as_deref(), Some(""));
}

#[test]
fn ifdef_blocks_keep_their_body() {
    let config = config(vec![], 1);
    let body = node(
        "property",
        "a;",
        true,
        vec![node("identifier", "a", true, vec![]), token(";")],
    );
    let ifdef = node(
        "preproc_ifdef",
        "#ifdef FOO\na;\n#endif",
        true,
        vec![token("#ifdef"), node("identifier", "FOO", true, vec![]), body, token("#endif")],
    );
    let root = node("document", "", true, vec![ifdef]);
    let mut unhandled: Vec<UnhandledToken> = Vec::new();
    assert_eq!(
        print_tree(&root, &config, &mut unhandled).as_deref(),
        Some("#ifdef FOO\na;\n#endif\n")
    );
}

#[test]
fn traverse_appends_to_the_writer() {
    let config = config(vec![], 1);
    let ctx = ctx(&config, 1, None);
    let mut w = String::from(">>");
    let mut unhandled: Vec<UnhandledToken> = Vec::new();
    let n = token("}");
    assert!(traverse(&mut w, &mut unhandled, &n, None, None, &ctx));
    assert_eq!(w, ">>}");
    let n = node("file_version", "/dts-v1/;", true, vec![]);
    assert!(traverse(&mut w, &mut unhandled, &n, None, None, &ctx));
    assert_eq!(w, ">>}/dts-v1/;\n\n");
}

#[test]
fn parse_gives_the_texts_of_the_source() {
    let tree = parse("/ {\n};\n").unwrap();
    assert_eq!(tree.kind, "document");
    assert_eq!(tree.children.len(), 1);
    let n = &tree.children[0];
    assert_eq!(n.kind, "node");
    assert_eq!(n.text, "/ {\n};");
    assert!(n.named);
    let kinds: Vec<&str> = n.children.iter().map(|c| c.kind.as_str()).collect();
    assert_eq!(kinds, vec!["identifier", "{", "}", ";"]);
    assert_eq!(n.children[0].text, "/");
    assert!(!n.children[1].named);
}

#[test]
fn a_failed_traversal_keeps_what_was_written() {
    let config = config(vec![], 1);
    let ctx = ctx(&config, 0, None);
    let mut unhandled: Vec<UnhandledToken> = Vec::new();
    let mut w = String::from("kept");
    let n = token("}");
    assert!(!traverse(&mut w, &mut unhandled, &n, None, None, &ctx));
    assert!(w.starts_with("kept"));
    // A node whose first child prints and whose second does not.
    let mut w = String::from("kept");
    let parent = node("document", "@}", true, vec![token("@"), token("}")]);
    assert!(!traverse_children(&mut w, &mut unhandled, &parent, 0, &ctx));
    assert!(w.starts_with("kept"));
}

fn cells_property(name: &str, cell: &str) -> SyntaxNode {
    let value = node(
        "integer_cells",
        "",
        true,
        vec![token("<"), node("integer_literal", cell, true, vec![]), token(">")],
    );
    node(
        "property",
        "",
        true,
        vec![node("identifier", name, true, vec![]), token("="), value, token(";")],
    )
}

#[test]
fn cell_counts_read_back_in_decimal_and_hexadecimal() {
    for v in [0u32, 1, 9, 10, 16, 255, 4096, u32::MAX] {
        let dec = cells_property("#address-cells", &v.to_string());
        assert_eq!(extract_cells_value(&dec), Some(Some(v)));
        let hex = cells_property("#size-cells", &format!("0x{:x}", v));
        assert_eq!(extract_cells_value(&hex), Some(Some(v)));
    }
    let bare = node(
        "property",
        "",
        true,
        vec![node("identifier", "#size-cells", true, vec![]), token(";")],
    );
    assert_eq!(extract_cells_value(&bare), None);
}

#[test]
fn adding_a_cell_widens_only_its_own_column() {
    let mut buf: VecDeque<String> = VecDeque::new();
    for s in ["&kp A", "&kp LSHIFT", "&mo 1", "&kp B", "&trans"] {
        buf.push_back(s.to_string());
    }
    let before = calculate_sizes(&buf, 3);
    buf.push_back("&kp LONGER_KEY".to_string());
    let after = calculate_sizes(&buf, 3);
    assert_eq!(before, vec![5, 10, 5]);
    assert_eq!(after, vec![5, 10, 14]);
    for c in 0..3 {
        assert!(after[c] >= before[c]);
    }
}
