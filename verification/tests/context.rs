use dtsfmt::config::{Config, KeyboardLayout};
use dtsfmt::context::{Context, ADDRESS_CELLS_DEFAULT, SIZE_CELLS_DEFAULT};

fn config() -> Config {
    Config {
        layout: KeyboardLayout { bindings: vec![1, 1, 1], row_size: 3 },
        warn_on_unhandled_tokens: false,
    }
}

fn base(config: &Config) -> Context<'_, 'static> {
    Context {
        indent: 2,
        keymap: false,
        bindings: false,
        identifier: None,
        address_cells: ADDRESS_CELLS_DEFAULT,
        size_cells: SIZE_CELLS_DEFAULT,
        config,
    }
}

#[test]
fn inc_adds_levels() {
    let config = config();
    let ctx = base(&config);
    let c = ctx.inc(3);
    assert_eq!(c.indent, 5);
    assert_eq!(c.address_cells, 2);
    assert_eq!(c.size_cells, 1);
    assert!(!c.keymap && !c.bindings);
}

#[test]
fn dec_removes_levels() {
    let config = config();
    let ctx = base(&config);
    assert_eq!(ctx.dec(2).indent, 0);
    assert_eq!(ctx.dec(1).indent, 1);
}

#[test]
fn inc_then_dec_restores_indent() {
    let config = config();
    let ctx = base(&config);
    let c = ctx.inc(4).dec(4);
    assert_eq!(c.indent, ctx.indent);
    assert_eq!(c.identifier, ctx.identifier);
}

#[test]
fn zephyr_syntax_needs_keymap_and_bindings() {
    let config = config();
    let ctx = base(&config);
    assert!(!ctx.has_zephyr_syntax());
    assert!(!ctx.keymap().has_zephyr_syntax());
    assert!(!ctx.bindings().has_zephyr_syntax());
    assert!(ctx.keymap().bindings().has_zephyr_syntax());
    assert!(ctx.bindings().keymap().has_zephyr_syntax());
}

#[test]
fn builders_set_their_field_only() {
    let config = config();
    let ctx = base(&config);
    let c = ctx.with_identifier("reg");
    assert_eq!(c.identifier, Some("reg"));
    assert_eq!(c.indent, 2);
    let c = ctx.with_address_cells(7);
    assert_eq!(c.address_cells, 7);
    assert_eq!(c.size_cells, 1);
    let c = ctx.with_size_cells(9);
    assert_eq!(c.size_cells, 9);
    assert_eq!(c.address_cells, 2);
    assert!(c.identifier.is_none());
}

#[test]
fn defaults_follow_the_devicetree_specification() {
    assert_eq!(ADDRESS_CELLS_DEFAULT, 2);
    assert_eq!(SIZE_CELLS_DEFAULT, 1);
}
