use vstd::prelude::*;

verus! {

/// The physical arrangement of a keyboard, used to lay out Zephyr keymap bindings
/// as a table.
///
/// `bindings` holds one entry per cell of the table, row after row: `1` marks a
/// cell that holds a key, any other value an empty cell.
#[derive(Debug)]
pub struct KeyboardLayout {
    pub bindings: Vec<u8>,
    pub row_size: usize,
}

impl KeyboardLayout {
    /// The number of cells in each row of the table.
    pub fn row_size(&self) -> (r: usize)
        ensures
            r == self.row_size,
    {
        self.row_size
    }
}

/// Options of the formatter.
#[derive(Debug)]
pub struct Config {
    pub layout: KeyboardLayout,
    pub warn_on_unhandled_tokens: bool,
}

/// What the printer reads of a `Config`.
pub struct ConfigView {
    pub layout_bindings: Seq<u8>,
    pub row_size: nat,
    pub warn_on_unhandled_tokens: bool,
}

impl View for Config {
    type V = ConfigView;

    open spec fn view(&self) -> ConfigView {
        ConfigView {
            layout_bindings: self.layout.bindings@,
            row_size: self.layout.row_size as nat,
            warn_on_unhandled_tokens: self.warn_on_unhandled_tokens,
        }
    }
}

} // verus!
