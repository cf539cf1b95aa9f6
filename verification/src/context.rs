use vstd::prelude::*;

use crate::config::{Config, ConfigView};

verus! {

/// The #address-cells and #size-cells in force where a file declares none.
pub const ADDRESS_CELLS_DEFAULT: u32 = 2;
pub const SIZE_CELLS_DEFAULT: u32 = 1;

/// The state that the printer carries down the syntax tree.
#[derive(Debug)]
pub struct Context<'a, 'b> {
    pub indent: usize,
    pub keymap: bool,
    pub bindings: bool,
    /// The nearest identifier found while descending through the tree.
    pub identifier: Option<&'b str>,
    /// The nearest #address-cells specification found descending through the tree.
    pub address_cells: u32,
    /// The nearest #size-cells specification found descending through the tree.
    pub size_cells: u32,
    pub config: &'a Config,
}

/// The printer's state as values: the identifier as its characters, the
/// configuration by its view.
pub struct ContextView {
    pub indent: nat,
    pub keymap: bool,
    pub bindings: bool,
    pub identifier: Option<Seq<char>>,
    pub address_cells: u32,
    pub size_cells: u32,
    pub config: ConfigView,
}

impl<'a, 'b> View for Context<'a, 'b> {
    type V = ContextView;

    open spec fn view(&self) -> ContextView {
        ContextView {
            indent: self.indent as nat,
            keymap: self.keymap,
            bindings: self.bindings,
            identifier: match self.identifier {
                Some(s) => Some(s@),
                None => None,
            },
            address_cells: self.address_cells,
            size_cells: self.size_cells,
            config: self.config@,
        }
    }
}

impl<'a, 'b> Context<'a, 'b> {
    /// The context with `increment` more levels of indentation.
    pub open spec fn spec_inc(self, increment: nat) -> Self {
        Context { indent: (self.indent + increment) as usize, ..self }
    }

    /// The context with `decrement` fewer levels of indentation.
    pub open spec fn spec_dec(self, decrement: nat) -> Self {
        Context { indent: (self.indent - decrement) as usize, ..self }
    }

    pub open spec fn spec_keymap(self) -> Self {
        Context { keymap: true, ..self }
    }

    pub open spec fn spec_bindings(self) -> Self {
        Context { bindings: true, ..self }
    }

    pub open spec fn spec_has_zephyr_syntax(self) -> bool {
        self.bindings && self.keymap
    }

    pub open spec fn spec_with_identifier(self, v: &'b str) -> Self {
        Context { identifier: Some(v), ..self }
    }

    pub open spec fn spec_with_address_cells(self, v: u32) -> Self {
        Context { address_cells: v, ..self }
    }

    pub open spec fn spec_with_size_cells(self, v: u32) -> Self {
        Context { size_cells: v, ..self }
    }

    pub fn inc(&self, increment: usize) -> (r: Self)
        requires
            self.indent + increment <= usize::MAX,
        ensures
            r == self.spec_inc(increment as nat),
    {
        Context { indent: self.indent + increment, ..*self }
    }

    pub fn dec(&self, decrement: usize) -> (r: Self)
        requires
            self.indent >= decrement,
        ensures
            r == self.spec_dec(decrement as nat),
    {
        Context { indent: self.indent - decrement, ..*self }
    }

    pub fn keymap(&self) -> (r: Self)
        ensures
            r == self.spec_keymap(),
    {
        Context { keymap: true, ..*self }
    }

    pub fn bindings(&self) -> (r: Self)
        ensures
            r == self.spec_bindings(),
    {
        Context { bindings: true, ..*self }
    }

    /// If a node named 'bindings' has a parent node named 'keymap' then we've
    /// encountered a Zephyr keymap that will be handled as a special case by the
    /// printer.
    pub fn has_zephyr_syntax(&self) -> (r: bool)
        ensures
            r == self.spec_has_zephyr_syntax(),
    {
        self.bindings && self.keymap
    }

    pub fn with_identifier(&'a self, v: &'b str) -> (r: Self)
        ensures
            r == self.spec_with_identifier(v),
    {
        Context { identifier: Some(v), ..*self }
    }

    pub fn with_address_cells(&self, v: u32) -> (r: Self)
        ensures
            r == self.spec_with_address_cells(v),
    {
        Context { address_cells: v, ..*self }
    }

    pub fn with_size_cells(&self, v: u32) -> (r: Self)
        ensures
            r == self.spec_with_size_cells(v),
    {
        Context { size_cells: v, ..*self }
    }
}

} // verus!
