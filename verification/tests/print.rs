use dtsfmt::config::{Config, KeyboardLayout};
use dtsfmt::printer::{print, UnhandledToken};

fn config() -> Config {
    Config {
        layout: KeyboardLayout { bindings: vec![1, 1, 1, 1], row_size: 2 },
        warn_on_unhandled_tokens: false,
    }
}

fn format(source: &str) -> Option<String> {
    let mut unhandled: Vec<UnhandledToken> = Vec::new();
    print(&source.to_string(), &config(), &mut unhandled)
}

#[test]
fn prints_version_and_root_node() {
    let out = format("/dts-v1/;\n\n/ {\n\tmodel = \"test\";\n};\n");
    assert_eq!(out.as_deref(), Some("/dts-v1/;\n\n/ {\n    model = \"test\";\n};\n"));
}

#[test]
fn normalises_line_comments() {
    let out = format("//hello   \n/ {\n};\n");
    assert_eq!(out.as_deref(), Some("// hello\n/ {\n};\n"));
}

#[test]
fn reg_cells_follow_address_and_size_cells() {
    let src = "/ {\n#address-cells = <1>;\n#size-cells = <1>;\nmemory@0 {\nreg = <0x0 0x1000>;\n};\n};\n";
    let out = format(src);
    assert_eq!(
        out.as_deref(),
        Some("/ {\n    #address-cells = <1>;\n    #size-cells = <1>;\n\n    memory@0 {\n        reg = <0x0 0x1000>;\n    };\n};\n")
    );
}

#[test]
fn long_reg_lists_wrap_at_the_cell_count() {
    let src = "/ {\n#address-cells = <1>;\n#size-cells = <1>;\nm {\nreg = <1 2 3 4>;\n};\n};\n";
    let out = format(src);
    let cont = format!("\n{}{}", " ".repeat(12), " ".repeat(5));
    let expected = format!(
        "/ {{\n    #address-cells = <1>;\n    #size-cells = <1>;\n\n    m {{\n        reg = <1 2{}3 4>;\n    }};\n}};\n",
        cont
    );
    assert_eq!(out.as_deref(), Some(expected.as_str()));
}

#[test]
fn empty_source_prints_nothing() {
    assert_eq!(format("").as_deref(), Some(""));
}

fn keymap_config() -> Config {
    Config {
        layout: KeyboardLayout { bindings: vec![1, 1, 1, 1], row_size: 2 },
        warn_on_unhandled_tokens: false,
    }
}

#[test]
fn keymap_bindings_become_a_table() {
    let src = "/ {\nkeymap {\ncompatible = \"zmk,keymap\";\ndefault_layer {\nbindings = <&kp A &kp B &kp C &trans>;\n};\n};\n};\n";
    let mut unhandled: Vec<UnhandledToken> = Vec::new();
    let out = print(&src.to_string(), &keymap_config(), &mut unhandled);
    let row = " ".repeat(16);
    let expected = format!(
        "/ {{\n    keymap {{\n        compatible = \"zmk,keymap\";\n\n        default_layer {{\n            bindings = <\n{row}&kp A   &kp B\n{row}&kp C   &trans\n{close}>;\n        }};\n    }};\n}};\n",
        row = row,
        close = " ".repeat(12)
    );
    assert_eq!(out.as_deref(), Some(expected.as_str()));
}

#[test]
fn keymap_gaps_in_the_layout_stay_empty() {
    let src = "/ {\nkeymap {\nl {\nbindings = <&kp A &kp B>;\n};\n};\n};\n";
    let config = Config {
        layout: KeyboardLayout { bindings: vec![1, 0, 1, 1], row_size: 2 },
        warn_on_unhandled_tokens: false,
    };
    let mut unhandled: Vec<UnhandledToken> = Vec::new();
    let out = print(&src.to_string(), &config, &mut unhandled);
    let row = " ".repeat(16);
    let expected = format!(
        "/ {{\n    keymap {{\n        l {{\n            bindings = <\n{row}&kp A   \n{row}&kp B   \n{close}>;\n        }};\n    }};\n}};\n",
        row = row,
        close = " ".repeat(12)
    );
    assert_eq!(out.as_deref(), Some(expected.as_str()));
}

#[test]
fn byte_strings_are_spaced_evenly() {
    let out = format("/ {\ndata = [01   02 0a];\n};\n");
    assert_eq!(out.as_deref(), Some("/ {\n    data = [01 02 0a];\n};\n"));
}

#[test]
fn includes_are_followed_by_a_blank_line() {
    let out = format("#include <dt-bindings/foo.h>\n/ {\n};\n");
    assert_eq!(out.as_deref(), Some("#include <dt-bindings/foo.h>\n\n/ {\n};\n"));
}

#[test]
fn dtsi_includes_are_followed_by_a_blank_line() {
    let out = format("/include/ \"a.dtsi\"\n/include/ \"b.dtsi\"\n/ {\n};\n");
    assert_eq!(
        out.as_deref(),
        Some("/include/ \"a.dtsi\"\n/include/ \"b.dtsi\"\n\n/ {\n};\n")
    );
}

#[test]
fn hexadecimal_cell_sizes_are_read() {
    let src = "/ {\n#address-cells = <0x1>;\n#size-cells = <0x0>;\nm {\nreg = <1 2>;\n};\n};\n";
    let out = format(src);
    let cont = format!("\n{}{}", " ".repeat(12), " ".repeat(5));
    let expected = format!(
        "/ {{\n    #address-cells = <0x1>;\n    #size-cells = <0x0>;\n\n    m {{\n        reg = <1{}2>;\n    }};\n}};\n",
        cont
    );
    assert_eq!(out.as_deref(), Some(expected.as_str()));
}

#[test]
fn zero_cells_per_reg_entry_cannot_be_printed() {
    let src = "/ {\n#address-cells = <0>;\n#size-cells = <0>;\nm {\nreg = <1>;\n};\n};\n";
    assert_eq!(format(src), None);
}

#[test]
fn overflowing_cells_per_reg_entry_cannot_be_printed() {
    let src = "/ {\n#address-cells = <0xffffffff>;\n#size-cells = <1>;\nm {\nreg = <1>;\n};\n};\n";
    assert_eq!(format(src), None);
}

#[test]
fn formatting_a_formatted_comment_changes_nothing() {
    let once = format("//   spaced out   \n/ {\n};\n").unwrap();
    let twice = format(&once).unwrap();
    assert_eq!(once, "// spaced out\n/ {\n};\n");
    assert_eq!(twice, once);
}

#[test]
fn a_comment_after_other_items_gets_a_blank_line() {
    let out = format("/ {\na = <1>;\n// note\n/* block */\n};\n");
    assert_eq!(
        out.as_deref(),
        Some("/ {\n    a = <1>;\n\n    // note\n    /* block */\n};\n")
    );
}

#[test]
fn unhandled_nodes_are_reported_when_asked() {
    let config = Config {
        layout: KeyboardLayout { bindings: vec![], row_size: 1 },
        warn_on_unhandled_tokens: true,
    };
    let mut unhandled: Vec<UnhandledToken> = Vec::new();
    let out = print(&"/delete-node/ &foo;\n".to_string(), &config, &mut unhandled);
    assert_eq!(out.as_deref(), Some("foo;\n"));
    let kinds: Vec<(&str, usize, &str)> = unhandled
        .iter()
        .map(|t| (t.kind.as_str(), t.child_count, t.text.as_str()))
        .collect();
    assert_eq!(
        kinds,
        vec![
            ("delete_node", 3, "/delete-node/ &foo;"),
            ("/delete-node/", 0, "/delete-node/"),
            ("reference", 2, "&foo"),
            ("&", 0, "&"),
        ]
    );
}

#[test]
fn unhandled_nodes_are_not_reported_unless_asked() {
    let mut unhandled: Vec<UnhandledToken> = Vec::new();
    let out = print(&"/delete-node/ &foo;\n".to_string(), &config(), &mut unhandled);
    assert_eq!(out.as_deref(), Some("foo;\n"));
    assert!(unhandled.is_empty());
}

#[test]
fn ifdef_blocks_at_the_top_keep_their_body() {
    let out = format("#ifdef FOO\n/ {\n};\n#endif\n");
    assert_eq!(out.as_deref(), Some("#ifdef FOO\n/ {\n};\n#endif\n"));
}

#[test]
fn defines_are_printed_unindented() {
    // The value keeps the whitespace that the grammar puts before it.
    let out = format("#define FOO 1\n/ {\n};\n");
    assert_eq!(out.as_deref(), Some("#define FOO  1\n\n/ {\n};\n"));
}

#[test]
fn labels_and_unit_addresses_are_kept() {
    let out = format("/ {\nlbl: n@10 {\n};\n};\n");
    assert_eq!(out.as_deref(), Some("/ {\n    lbl: n@10 {\n    };\n};\n"));
}

#[test]
fn formatting_a_formatted_file_changes_nothing() {
    let src = "/dts-v1/;\n#include <a.h>\n/ {\n// c\n#address-cells = <1>;\n#size-cells = <1>;\nmem@0 { reg = <0 1 2 3>; data = [01 02]; };\nkeymap {\nl {\nbindings = <&kp A &kp B &kp C>;\n};\n};\n};\n";
    let once = format(src).unwrap();
    let twice = format(&once).unwrap();
    assert_eq!(twice, once);
}

#[test]
fn cell_counts_written_either_way_read_back() {
    let address: u32 = 2;
    let size: u32 = 1;
    let src = format!(
        "/ {{\n#address-cells = <{}>;\n#size-cells = <{}>;\nm {{\nreg = <1 2 3 4 5 6>;\n}};\n}};\n",
        format!("0x{:x}", address),
        size.to_string()
    );
    let cont = format!("\n{}{}", " ".repeat(12), " ".repeat(5));
    let expected = format!(
        "/ {{\n    #address-cells = <0x2>;\n    #size-cells = <1>;\n\n    m {{\n        reg = <1 2 3{}4 5 6>;\n    }};\n}};\n",
        cont
    );
    assert_eq!(format(&src).as_deref(), Some(expected.as_str()));
}
