//! What the printer writes, as values. A result of `None` marks the trees on
//! which printing cannot go through: a node lacks the children that its kind
//! always has in a parsed file, a number does not fit, or an indentation would
//! drop below zero.
use vstd::prelude::*;

use crate::config::ConfigView;
use crate::context::ContextView;
use crate::printer::UnhandledToken;
use crate::syntax::SyntaxNode;
use crate::text::{trim, words};

verus! {

/// `None` if either part is `None`, else the two texts one after the other.
pub open spec fn cat(a: Option<Seq<char>>, b: Option<Seq<char>>) -> Option<Seq<char>> {
    match (a, b) {
        (Some(x), Some(y)) => Some(x + y),
        _ => None,
    }
}

/// One level of indentation.
pub open spec fn indent_unit() -> Seq<char> {
    "    "@
}

/// `n` levels of indentation.
pub open spec fn indentation(n: nat) -> Seq<char>
    decreases n,
{
    if n == 0 {
        Seq::empty()
    } else {
        indentation((n - 1) as nat) + indent_unit()
    }
}

/// `n` spaces.
pub open spec fn spaces(n: nat) -> Seq<char>
    decreases n,
{
    if n == 0 {
        Seq::empty()
    } else {
        spaces((n - 1) as nat).push(' ')
    }
}

/// `s` followed by spaces up to a width of `width` characters.
pub open spec fn pad_right_spec(s: Seq<char>, width: nat) -> Seq<char> {
    if width > s.len() {
        s + spaces((width - s.len()) as nat)
    } else {
        s
    }
}

/// The length in bytes of the UTF-8 encoding of `s`, as `str::len` gives it.
pub open spec fn byte_len(s: Seq<char>) -> usize {
    vstd::utf8::encode_utf8(s).len() as usize
}

/// The kinds of preprocessor directives.
pub open spec fn is_preproc_kind(k: Seq<char>) -> bool {
    k == "preproc_include"@ || k == "preproc_ifdef"@ || k == "preproc_def"@
        || k == "preproc_function_def"@
}

/// The `k`-th child of `n`, or its last child where it has fewer.
pub open spec fn nth_child(n: SyntaxNode, k: int) -> SyntaxNode {
    if k < n.children@.len() {
        n.children@[k]
    } else {
        n.children@.last()
    }
}

/// The child of `p` before its `i`-th child.
pub open spec fn prev_of(p: SyntaxNode, i: int) -> Option<SyntaxNode> {
    if 0 < i <= p.children@.len() {
        Some(p.children@[i - 1])
    } else {
        None
    }
}

/// The child of `p` after its `i`-th child.
pub open spec fn next_of(p: SyntaxNode, i: int) -> Option<SyntaxNode> {
    if 0 <= i && i + 1 < p.children@.len() {
        Some(p.children@[i + 1])
    } else {
        None
    }
}

/// Whether `n` is a node of kind `k`.
pub open spec fn kind_is(n: Option<SyntaxNode>, k: Seq<char>) -> bool {
    match n {
        Some(x) => x.kind@ == k,
        None => false,
    }
}

/// A blank line after a preprocessor directive that a sibling other than a
/// directive follows.
pub open spec fn directive_break(next: Option<SyntaxNode>) -> Seq<char> {
    match next {
        Some(x) => if !is_preproc_kind(x.kind@) {
            "\n"@
        } else {
            Seq::empty()
        },
        None => Seq::empty(),
    }
}


/// Whether `c` starts with `//`.
pub open spec fn starts_with_slashes(c: Seq<char>) -> bool {
    c.len() >= 2 && c[0] == '/' && c[1] == '/'
}

/// `c` without all the `//` pairs that lead it (`str::trim_start_matches("//")`).
pub open spec fn strip_slashes(c: Seq<char>) -> Seq<char>
    decreases c.len(),
{
    if starts_with_slashes(c) {
        strip_slashes(c.subrange(2, c.len() as int))
    } else {
        c
    }
}

/// A comment as printed: a line comment gets exactly one space after `//` and
/// loses its surrounding whitespace; a block comment stays as written.
pub open spec fn comment_text(c: Seq<char>) -> Seq<char> {
    if starts_with_slashes(c) {
        "// "@ + trim(strip_slashes(c))
    } else {
        c
    }
}

/// A comment, on a line of its own, after a blank line where it follows
/// something other than a comment.
pub open spec fn comment_out(n: SyntaxNode, prev: Option<SyntaxNode>, ctx: ContextView) -> Seq<char> {
    let sep = match prev {
        Some(p) => if p.kind@ != "comment"@ {
            "\n"@
        } else {
            Seq::empty()
        },
        None => Seq::empty(),
    };
    sep + indentation(ctx.indent) + comment_text(n.text@) + "\n"@
}

/// `/include/ <path>` on a line of its own, after which a blank line separates
/// the last of a run of such includes from what follows.
pub open spec fn dtsi_include_out(n: SyntaxNode, next: Option<SyntaxNode>, ctx: ContextView) -> Seq<char> {
    let after = match next {
        Some(x) => if x.kind@ != "dtsi_include"@ {
            "\n"@
        } else {
            Seq::empty()
        },
        None => Seq::empty(),
    };
    indentation(ctx.indent) + "/include/ "@ + nth_child(n, 1).text@ + "\n"@ + after
}

/// `#include <path>` on a line of its own.
pub open spec fn preproc_include_out(n: SyntaxNode, next: Option<SyntaxNode>, ctx: ContextView) -> Seq<char> {
    indentation(ctx.indent) + "#include "@ + nth_child(n, 1).text@ + "\n"@ + directive_break(next)
}

/// `#define NAME VALUE` on a line of its own, not indented.
pub open spec fn preproc_def_out(n: SyntaxNode, next: Option<SyntaxNode>) -> Seq<char> {
    "#define "@ + nth_child(n, 1).text@ + " "@ + nth_child(n, 2).text@ + "\n"@ + directive_break(
        next,
    )
}

/// `#define NAME(PARAMS) VALUE` on a line of its own, not indented.
pub open spec fn preproc_function_def_out(n: SyntaxNode, next: Option<SyntaxNode>) -> Seq<char> {
    "#define "@ + nth_child(n, 1).text@ + nth_child(n, 2).text@ + " "@ + nth_child(n, 3).text@
        + "\n"@ + directive_break(next)
}

/// The opening line of `#ifdef NAME`.
pub open spec fn ifdef_head(n: SyntaxNode, ctx: ContextView) -> Seq<char> {
    indentation(ctx.indent) + trim(nth_child(n, 0).text@) + " "@ + nth_child(n, 1).text@ + "\n"@
}

/// The closing line of an `#ifdef`.
pub open spec fn ifdef_tail(next: Option<SyntaxNode>, ctx: ContextView) -> Seq<char> {
    indentation(ctx.indent) + "#endif\n"@ + directive_break(next)
}

/// The text printed for the tokens that stand for themselves, `None` for other kinds.
pub open spec fn token_out(k: Seq<char>) -> Option<Seq<char>> {
    if k == "@"@ {
        Some("@"@)
    } else if k == "{"@ {
        Some(" {\n"@)
    } else if k == ":"@ {
        Some(": "@)
    } else if k == ";"@ {
        Some(";\n"@)
    } else if k == ","@ {
        Some(", "@)
    } else if k == "="@ {
        Some(" = "@)
    } else {
        None
    }
}

/// The kinds printed as their own text.
pub open spec fn is_verbatim_kind(k: Seq<char>) -> bool {
    k == "identifier"@ || k == "integer_literal"@ || k == "string_literal"@ || k == "unit_address"@
}


/// The named children among `cs`, in order.
pub open spec fn named_of(cs: Seq<SyntaxNode>) -> Seq<SyntaxNode>
    decreases cs.len(),
{
    if cs.len() == 0 {
        Seq::empty()
    } else if cs.last().named {
        named_of(cs.drop_last()).push(cs.last())
    } else {
        named_of(cs.drop_last())
    }
}

/// The `i`-th named child of `n`, if it has one.
pub open spec fn nth_named(n: SyntaxNode, i: int) -> Option<SyntaxNode> {
    if 0 <= i < named_of(n.children@).len() {
        Some(named_of(n.children@)[i])
    } else {
        None
    }
}

/// The value of digit `c` in base `radix`, if it is one.
pub open spec fn digit_value(c: char, radix: u32) -> Option<nat> {
    let u = c as u32;
    let d: int = if 0x30 <= u <= 0x39 {
        u - 0x30
    } else if 0x61 <= u <= 0x7A {
        u - 0x61 + 10
    } else if 0x41 <= u <= 0x5A {
        u - 0x41 + 10
    } else {
        radix as int
    };
    if d < radix {
        Some(d as nat)
    } else {
        None
    }
}

/// Whether every character of `s` is a digit in base `radix`.
pub open spec fn all_digits(s: Seq<char>, radix: u32) -> bool {
    forall|i: int| 0 <= i < s.len() ==> (#[trigger] digit_value(s[i], radix)) is Some
}

/// The number that the digits `s` write in base `radix`.
pub open spec fn digits_value(s: Seq<char>, radix: u32) -> nat
    decreases s.len(),
{
    if s.len() == 0 {
        0
    } else {
        digits_value(s.drop_last(), radix) * (radix as nat) + digit_value(s.last(), radix).unwrap()
    }
}

/// `u32::from_str_radix`: an optional `+` then at least one digit in base
/// `radix`, whose value fits in a `u32`.
pub open spec fn parse_u32_spec(s: Seq<char>, radix: u32) -> Option<u32> {
    let digits = if s.len() > 0 && s[0] == '+' {
        s.drop_first()
    } else {
        s
    };
    if digits.len() > 0 && all_digits(digits, radix) && digits_value(digits, radix) <= u32::MAX {
        Some(digits_value(digits, radix) as u32)
    } else {
        None
    }
}

/// The number that a cell text writes: hexadecimal after `0x`, else decimal.
pub open spec fn cell_number(s: Seq<char>) -> Option<u32> {
    if s.len() >= 2 && s[0] == '0' && s[1] == 'x' {
        parse_u32_spec(s.subrange(2, s.len() as int), 16)
    } else {
        parse_u32_spec(s, 10)
    }
}

/// The value of a `#address-cells` or `#size-cells` property: the number in the
/// first named child of its second named child. `None` where either is missing.
pub open spec fn cells_value(prop: SyntaxNode) -> Option<Option<u32>> {
    match nth_named(prop, 1) {
        Some(v) => match nth_named(v, 0) {
            Some(cell) => Some(cell_number(cell.text@)),
            None => None,
        },
        None => None,
    }
}

/// The `#address-cells` and `#size-cells` values that the properties among
/// `cs` declare, the last declaration of each winning. `None` where a property
/// has no name or one of these two properties has no cell.
pub open spec fn cells_of(cs: Seq<SyntaxNode>) -> Option<(Option<u32>, Option<u32>)>
    decreases cs.len(),
{
    if cs.len() == 0 {
        Some((None, None))
    } else {
        match cells_of(cs.drop_last()) {
            None => None,
            Some((a, s)) => {
                let c = cs.last();
                if c.named && c.kind@ == "property"@ {
                    match nth_named(c, 0) {
                        None => None,
                        Some(name) => if name.text@ == "#address-cells"@ {
                            match cells_value(c) {
                                Some(v) => Some((v, s)),
                                None => None,
                            }
                        } else if name.text@ == "#size-cells"@ {
                            match cells_value(c) {
                                Some(v) => Some((a, v)),
                                None => None,
                            }
                        } else {
                            Some((a, s))
                        },
                    }
                } else {
                    Some((a, s))
                }
            },
        }
    }
}

/// The length in bytes of the identifier of `ctx`, 0 where it has none.
pub open spec fn identifier_len(ctx: ContextView) -> usize {
    match ctx.identifier {
        Some(id) => byte_len(id),
        None => 0,
    }
}

/// What starts each further line of a cell list: the indentation of `ctx`,
/// then as many spaces as the length in bytes of its identifier plus 2.
pub open spec fn continuation(ctx: ContextView) -> Seq<char> {
    indentation(ctx.indent) + spaces((identifier_len(ctx) + 2) as nat)
}

/// `items` separated by single spaces, except that every `k`-th item after the
/// first starts a new line that begins with `cont`.
pub open spec fn int_layout(items: Seq<Seq<char>>, k: nat, cont: Seq<char>) -> Seq<char>
    decreases items.len(),
{
    if items.len() == 0 {
        Seq::empty()
    } else {
        let j = items.len() - 1;
        let sep = if j == 0 {
            Seq::empty()
        } else if j % (k as int) == 0 {
            "\n"@ + cont
        } else {
            " "@
        };
        int_layout(items.drop_last(), k, cont) + sep + items.last()
    }
}

/// Whether a cell list in lines of `k` items can be printed under `ctx`: the
/// alignment of a second line must fit in a `usize`.
pub open spec fn int_layout_ok(n_items: nat, k: nat, ctx: ContextView) -> bool {
    n_items <= k || identifier_len(ctx) + 2 <= usize::MAX
}

/// The number of cells per line of an integer cell list: the sum of the
/// `#address-cells` and `#size-cells` in force for `reg`, else 16. `None` where
/// that sum overflows.
pub open spec fn chunk_size(ctx: ContextView) -> Option<u32> {
    if ctx.identifier == Some("reg"@) {
        if ctx.address_cells + ctx.size_cells <= u32::MAX {
            Some((ctx.address_cells + ctx.size_cells) as u32)
        } else {
            None
        }
    } else {
        Some(16)
    }
}

/// A byte string `[..]`: its bytes in lines of 16.
pub open spec fn byte_string_out(n: SyntaxNode, ctx: ContextView) -> Option<Seq<char>> {
    let t = n.text@;
    if t.len() >= 2 && (t[0] as u32) < 0x80 && (t.last() as u32) < 0x80 {
        let items = words(t.subrange(1, t.len() - 1));
        if int_layout_ok(items.len(), 16, ctx) {
            Some("["@ + int_layout(items, 16, continuation(ctx)) + "]"@)
        } else {
            None
        }
    } else {
        None
    }
}

/// An integer cell list `<..>` outside a Zephyr keymap: the texts of its named
/// children in lines of `chunk_size` cells.
pub open spec fn cell_list_out(n: SyntaxNode, k: u32, ctx: ContextView) -> Option<Seq<char>> {
    let items = named_of(n.children@).map_values(|c: SyntaxNode| c.text@);
    if k > 0 && int_layout_ok(items.len(), k as nat, ctx) {
        Some("<"@ + int_layout(items, k as nat, continuation(ctx)) + ">"@)
    } else {
        None
    }
}


/// The index of the first of `cs` from `i` on whose kind is `>`, or the length
/// of `cs` where there is none.
pub open spec fn first_close(cs: Seq<SyntaxNode>, i: int) -> int
    decreases cs.len() - i,
{
    if i >= cs.len() {
        cs.len() as int
    } else if cs[i].kind@ == ">"@ {
        i
    } else {
        first_close(cs, i + 1)
    }
}

/// The trimmed texts of the children of a keymap's cell list after the opening
/// `<` and before the first `>`.
pub open spec fn binding_tokens(n: SyntaxNode) -> Seq<Seq<char>> {
    let cs = n.children@;
    let end = first_close(cs, 1);
    Seq::new((end - 1) as nat, |j: int| trim(cs[j + 1].text@))
}

/// The bindings read from `tokens`: the completed ones and the one being read.
/// A token that starts with `&` starts a new binding; the tokens of a binding are
/// joined by single spaces.
pub open spec fn group_state(tokens: Seq<Seq<char>>) -> (Seq<Seq<char>>, Seq<char>)
    decreases tokens.len(),
{
    if tokens.len() == 0 {
        (Seq::empty(), Seq::empty())
    } else {
        let (done, item) = group_state(tokens.drop_last());
        let t = tokens.last();
        if item.len() > 0 && t.len() > 0 && t[0] == '&' {
            (done.push(item), t)
        } else if item.len() > 0 {
            (done, item + " "@ + t)
        } else {
            (done, t)
        }
    }
}

/// The bindings that `tokens` write, the last one included even where empty.
pub open spec fn group_bindings(tokens: Seq<Seq<char>>) -> Seq<Seq<char>> {
    group_state(tokens).0.push(group_state(tokens).1)
}

/// The cells of a keyboard table: each key cell (marked `1`) takes the next of
/// `bindings`, or the empty string once they run out; the other cells stay empty.
pub open spec fn fill_layout(mask: Seq<u8>, bindings: Seq<Seq<char>>) -> Seq<Seq<char>>
    decreases mask.len(),
{
    if mask.len() == 0 {
        Seq::empty()
    } else if mask[0] == 1 {
        if bindings.len() > 0 {
            seq![bindings[0]] + fill_layout(mask.drop_first(), bindings.drop_first())
        } else {
            seq![Seq::<char>::empty()] + fill_layout(mask.drop_first(), bindings)
        }
    } else {
        seq![Seq::<char>::empty()] + fill_layout(mask.drop_first(), bindings)
    }
}

/// The cells of the keymap table of the cell list `n` under `ctx`.
pub open spec fn keymap_cells(n: SyntaxNode, ctx: ContextView) -> Seq<Seq<char>> {
    fill_layout(ctx.config.layout_bindings, group_bindings(binding_tokens(n)))
}

/// The greatest of `lens[j]`, `lens[j + row]`, `lens[j + 2 * row]`, ...; 0 where
/// there is none.
pub open spec fn column_max(lens: Seq<usize>, row: nat, j: int) -> usize
    decreases if j < lens.len() {
        lens.len() - j
    } else {
        0
    },
{
    if j < 0 || j >= lens.len() || row == 0 {
        0
    } else {
        let rest = column_max(lens, row, j + row);
        if lens[j] > rest {
            lens[j]
        } else {
            rest
        }
    }
}

/// The lengths in bytes of `items`.
pub open spec fn byte_lens(items: Seq<Seq<char>>) -> Seq<usize> {
    items.map_values(|s: Seq<char>| byte_len(s))
}

/// The width of each of the `row` columns of a table of `items`: the longest
/// item in that column, in bytes.
pub open spec fn column_widths(items: Seq<Seq<char>>, row: nat) -> Seq<usize> {
    Seq::new(row, |c: int| column_max(byte_lens(items), row, c))
}

/// The rows of a keymap table: each row on a line of its own that starts with
/// `ind`; each cell padded to its column's width plus 3, the last of a row not.
pub open spec fn binding_rows(items: Seq<Seq<char>>, row: nat, widths: Seq<usize>, ind: Seq<char>) -> Seq<char>
    decreases items.len(),
{
    if items.len() == 0 || row == 0 {
        Seq::empty()
    } else {
        let i = items.len() - 1;
        let col = i % (row as int);
        let lead = if col == 0 {
            "\n"@ + ind
        } else {
            Seq::empty()
        };
        let pad: nat = if (i + 1) % (row as int) == 0 {
            0
        } else {
            (widths[col] + 3) as nat
        };
        binding_rows(items.drop_last(), row, widths, ind) + lead + pad_right_spec(items.last(), pad)
    }
}

/// Whether a keymap table can be printed: a row has at least one cell unless
/// the table is empty, the closing line has an indentation to drop, and the
/// padded widths fit in a `usize`.
pub open spec fn keymap_ok(items: Seq<Seq<char>>, ctx: ContextView) -> bool {
    let row = ctx.config.row_size;
    &&& (items.len() > 0 ==> row > 0)
    &&& ctx.indent >= 1
    &&& forall|c: int|
        0 <= c < row - 1 ==> #[trigger] column_widths(items, row)[c] + 3 <= usize::MAX
}

/// A Zephyr keymap's cell list: its bindings as a table, one row per line.
pub open spec fn keymap_out(n: SyntaxNode, ctx: ContextView) -> Option<Seq<char>> {
    let items = keymap_cells(n, ctx);
    let row = ctx.config.row_size;
    if keymap_ok(items, ctx) {
        Some(
            "<"@ + binding_rows(items, row, column_widths(items, row), indentation(ctx.indent))
                + "\n"@ + indentation((ctx.indent - 1) as nat) + ">"@,
        )
    } else {
        None
    }
}

/// An integer cell list `<..>`.
pub open spec fn integer_cells_out(n: SyntaxNode, ctx: ContextView) -> Option<Seq<char>> {
    match chunk_size(ctx) {
        None => None,
        Some(k) => if ctx.keymap && ctx.bindings {
            if n.children@.len() > 0 && n.children@[0].children@.len() == 0 {
                keymap_out(n, ctx)
            } else {
                None
            }
        } else {
            cell_list_out(n, k, ctx)
        },
    }
}

/// The context for the children of a node or property whose first child has the
/// text `id`, given the cell sizes that it declares.
pub open spec fn child_context(ctx: ContextView, id: Seq<char>, address: Option<u32>, size: Option<u32>) -> ContextView {
    ContextView {
        indent: ctx.indent + 1,
        keymap: ctx.keymap || id == "keymap"@,
        bindings: ctx.bindings || (id != "keymap"@ && id == "bindings"@),
        identifier: Some(id),
        address_cells: match address {
            Some(a) => a,
            None => ctx.address_cells,
        },
        size_cells: match size {
            Some(s) => s,
            None => ctx.size_cells,
        },
        config: ctx.config,
    }
}

/// The text printed for `n`, whose previous and next siblings are `prev` and
/// `next`, under `ctx`. `None` where `n` has no formatted form: a directive or
/// node without children, a `}` at indentation 0, a cell-count property without
/// a value, a `reg` list whose cell counts sum to 0 or past `u32::MAX`, a keymap
/// that `keymap_ok` refuses, a layout that does not fit in a `usize`, or any of
/// these below `n`.
pub open spec fn format_node(n: SyntaxNode, prev: Option<SyntaxNode>, next: Option<SyntaxNode>, ctx: ContextView) -> Option<Seq<char>>
    decreases n, 1int, 0int,
{
    let k = n.kind@;
    let len = n.children@.len();
    if k == "file_version"@ {
        Some(n.text@ + "\n\n"@)
    } else if k == "comment"@ {
        Some(comment_out(n, prev, ctx))
    } else if k == "dtsi_include"@ {
        if len == 0 {
            None
        } else {
            Some(dtsi_include_out(n, next, ctx))
        }
    } else if k == "preproc_include"@ {
        if len == 0 {
            None
        } else {
            Some(preproc_include_out(n, next, ctx))
        }
    } else if k == "preproc_def"@ {
        if len == 0 {
            None
        } else {
            Some(preproc_def_out(n, next))
        }
    } else if k == "preproc_function_def"@ {
        if len == 0 {
            None
        } else {
            Some(preproc_function_def_out(n, next))
        }
    } else if k == "preproc_ifdef"@ {
        ifdef_out(n, next, ctx)
    } else if is_verbatim_kind(k) {
        Some(n.text@)
    } else if k == "node"@ || k == "property"@ {
        nested_out(n, next, ctx)
    } else if k == "byte_string_literal"@ {
        byte_string_out(n, ctx)
    } else if k == "integer_cells"@ {
        integer_cells_out(n, ctx)
    } else if token_out(k) is Some {
        token_out(k)
    } else if k == "}"@ {
        if ctx.indent == 0 {
            None
        } else {
            Some(indentation((ctx.indent - 1) as nat) + "}"@)
        }
    } else {
        fallback_out(n, ctx)
    }
}

/// An `#ifdef` block: its opening line, the items of its body, its closing line.
pub open spec fn ifdef_out(n: SyntaxNode, next: Option<SyntaxNode>, ctx: ContextView) -> Option<Seq<char>>
    decreases n, 0int, n.children@.len() + 1,
{
    if n.children@.len() == 0 {
        None
    } else {
        cat(
            Some(ifdef_head(n, ctx)),
            cat(format_children(n, 2, ctx), Some(ifdef_tail(next, ctx))),
        )
    }
}

/// A node or property: indented, its children printed one level deeper under
/// the identifier of its first child and the cell sizes that it declares, and a
/// blank line between a property and a node that follows it.
pub open spec fn nested_out(n: SyntaxNode, next: Option<SyntaxNode>, ctx: ContextView) -> Option<Seq<char>>
    decreases n, 0int, n.children@.len() + 1,
{
    let k = n.kind@;
    let len = n.children@.len();
    match cells_of(n.children@) {
        None => None,
        Some((address, size)) => if len == 0 || ctx.indent + 1 > usize::MAX {
            None
        } else {
            let inner = child_context(ctx, n.children@[0].text@, address, size);
            let after = if k == "property"@ && kind_is(next, "node"@) {
                "\n"@
            } else {
                Seq::empty()
            };
            cat(Some(indentation(ctx.indent)), cat(format_children(n, 0, inner), Some(after)))
        },
    }
}

/// A node of any other kind: its first child, then the others one level deeper.
pub open spec fn fallback_out(n: SyntaxNode, ctx: ContextView) -> Option<Seq<char>>
    decreases n, 0int, n.children@.len() + 1,
{
    let len = n.children@.len();
    if len == 0 {
        Some(Seq::empty())
    } else if len >= 2 && ctx.indent + 1 > usize::MAX {
        None
    } else {
        cat(
            format_node(n.children@[0], None, next_of(n, 0), ctx),
            format_children(n, 1, ContextView { indent: ctx.indent + 1, ..ctx }),
        )
    }
}

/// The texts printed for the children of `p` from the `i`-th on, all under `ctx`.
pub open spec fn format_children(p: SyntaxNode, i: int, ctx: ContextView) -> Option<Seq<char>>
    decreases p, 0int, if i < p.children@.len() {
        p.children@.len() - i
    } else {
        0
    },
{
    if i < 0 || i >= p.children@.len() {
        Some(Seq::empty())
    } else {
        cat(
            format_node(p.children@[i], prev_of(p, i), next_of(p, i), ctx),
            format_children(p, i + 1, ctx),
        )
    }
}

/// The nodes without a rule that printing the file rooted at `root` meets.
pub open spec fn unhandled_in_document(root: SyntaxNode, config: ConfigView) -> Seq<(Seq<char>, usize, Seq<char>)> {
    if root.children@.len() == 0 {
        unhandled_in(root, config.warn_on_unhandled_tokens)
    } else {
        unhandled_children(root, 0, config.warn_on_unhandled_tokens)
    }
}

/// The context in which the printing of a file starts.
pub open spec fn initial_context(config: ConfigView) -> ContextView {
    ContextView {
        indent: 0,
        keymap: false,
        bindings: false,
        identifier: None,
        address_cells: 2,
        size_cells: 1,
        config,
    }
}

/// The text printed for the file whose syntax tree is rooted at `root`: each of
/// its top-level items in turn (the root itself where it has none).
pub open spec fn format_document(root: SyntaxNode, config: ConfigView) -> Option<Seq<char>> {
    if root.children@.len() == 0 {
        format_node(root, None, None, initial_context(config))
    } else {
        format_children(root, 0, initial_context(config))
    }
}


/// The kind, number of children and text of each of `v`.
pub open spec fn token_views(v: Seq<UnhandledToken>) -> Seq<(Seq<char>, usize, Seq<char>)> {
    v.map_values(|t: UnhandledToken| (t.kind@, t.child_count, t.text@))
}

/// The nodes without a rule that printing `n` meets, in the order met, where
/// `warn` asks for them; none where it does not.
pub open spec fn unhandled_in(n: SyntaxNode, warn: bool) -> Seq<(Seq<char>, usize, Seq<char>)>
    decreases n, 1int, 0int,
{
    let k = n.kind@;
    if k == "file_version"@ || k == "comment"@ || k == "dtsi_include"@ || k == "preproc_include"@
        || k == "preproc_def"@ || k == "preproc_function_def"@ {
        Seq::empty()
    } else if k == "preproc_ifdef"@ {
        unhandled_children(n, 2, warn)
    } else if is_verbatim_kind(k) {
        Seq::empty()
    } else if k == "node"@ || k == "property"@ {
        unhandled_children(n, 0, warn)
    } else if k == "byte_string_literal"@ || k == "integer_cells"@ || token_out(k) is Some || k
        == "}"@ {
        Seq::empty()
    } else {
        let own = if warn {
            seq![(k, n.children@.len() as usize, n.text@)]
        } else {
            Seq::empty()
        };
        own + unhandled_children(n, 0, warn)
    }
}

/// The nodes without a rule that printing the children of `p` from the `i`-th
/// on meets.
pub open spec fn unhandled_children(p: SyntaxNode, i: int, warn: bool) -> Seq<(Seq<char>, usize, Seq<char>)>
    decreases p, 0int, if i < p.children@.len() {
        p.children@.len() - i
    } else {
        0
    },
{
    if i < 0 || i >= p.children@.len() {
        Seq::empty()
    } else {
        unhandled_in(p.children@[i], warn) + unhandled_children(p, i + 1, warn)
    }
}

} // verus!
