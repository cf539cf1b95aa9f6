//! Laws on what the printer writes for particular kinds of nodes, stated over
//! the nodes' own kinds, texts and children.
use vstd::prelude::*;

use crate::config::ConfigView;
use crate::context::ContextView;
use crate::format::{
    binding_rows, byte_len, byte_lens, child_context, chunk_size, column_max, column_widths,
    continuation, format_children, format_document, format_node, indentation, int_layout,
    int_layout_ok, keymap_cells, named_of, spaces,
};
use crate::laws::{join_with_spaces, law_short_cell_list_on_one_line};
use crate::syntax::SyntaxNode;
use crate::text::{is_whitespace, split_state, words};

verus! {

/// Space, tab, line feed and carriage return are whitespace.
pub proof fn law_common_separators_are_whitespace()
    ensures
        is_whitespace(' '),
        is_whitespace('\t'),
        is_whitespace('\n'),
        is_whitespace('\r'),
{
    assert(' ' as u32 == 0x20);
    assert('\t' as u32 == 0x09);
    assert('\n' as u32 == 0x0A);
    assert('\r' as u32 == 0x0D);
}

/// The state of the split after `a`, a whitespace character `w` and then `b`:
/// the words of `a`, followed by the state of the split of `b` alone.
proof fn lemma_split_after_whitespace(a: Seq<char>, w: char, b: Seq<char>)
    requires
        is_whitespace(w),
    ensures
        split_state(a.push(w) + b) == (words(a) + split_state(b).0, split_state(b).1),
    decreases b.len(),
{
    if b.len() == 0 {
        assert(a.push(w) + b =~= a.push(w));
        assert(a.push(w).drop_last() =~= a);
        assert(words(a) + Seq::<Seq<char>>::empty() =~= words(a));
    } else {
        let x = a.push(w) + b;
        assert(x.drop_last() =~= a.push(w) + b.drop_last());
        assert(x.last() == b.last());
        lemma_split_after_whitespace(a, w, b.drop_last());
        let (db, cb) = split_state(b.drop_last());
        if is_whitespace(b.last()) && cb.len() > 0 {
            assert((words(a) + db).push(cb) =~= words(a) + db.push(cb));
        }
    }
}

/// A text without whitespace is read as a single run.
proof fn lemma_split_no_whitespace(s: Seq<char>)
    requires
        forall|i: int| 0 <= i < s.len() ==> !is_whitespace(#[trigger] s[i]),
    ensures
        split_state(s) == (Seq::<Seq<char>>::empty(), s),
    decreases s.len(),
{
    if s.len() > 0 {
        lemma_split_no_whitespace(s.drop_last());
        assert(s.drop_last().push(s.last()) =~= s);
    }
}

/// How a text splits into whitespace-separated words (`str::split_whitespace`),
/// the rule by which a byte string `[..]` is read into its bytes: a text with
/// no whitespace is one word (none where it is empty), and a whitespace
/// character between two texts ends the words of the first, so the words of
/// the whole are those of the first and then those of the second. Every
/// whitespace character separates, tab and line feed as much as space, and no
/// word holds one.
pub proof fn law_words_split_at_whitespace(a: Seq<char>, w: char, b: Seq<char>)
    ensures
        is_whitespace(w) ==> words(a.push(w) + b) == words(a) + words(b),
        (forall|i: int| 0 <= i < a.len() ==> !is_whitespace(#[trigger] a[i])) ==> words(a) == (
        if a.len() == 0 {
            Seq::<Seq<char>>::empty()
        } else {
            seq![a]
        }),
{
    if is_whitespace(w) {
        lemma_split_after_whitespace(a, w, b);
        let (db, cb) = split_state(b);
        if cb.len() > 0 {
            assert((words(a) + db).push(cb) =~= words(a) + db.push(cb));
        }
    }
    if forall|i: int| 0 <= i < a.len() ==> !is_whitespace(#[trigger] a[i]) {
        lemma_split_no_whitespace(a);
        if a.len() > 0 {
            assert(Seq::<Seq<char>>::empty().push(a) =~= seq![a]);
        }
    }
}

/// No word of a text holds whitespace, and none is empty.
pub proof fn law_words_hold_no_whitespace(s: Seq<char>, i: int, j: int)
    requires
        0 <= i < words(s).len(),
        0 <= j < words(s)[i].len(),
    ensures
        words(s)[i].len() > 0,
        !is_whitespace(words(s)[i][j]),
{
    lemma_split_words_clean(s);
}

/// The split keeps only non-empty, whitespace-free runs.
proof fn lemma_split_clean(s: Seq<char>)
    ensures
        forall|i: int| 0 <= i < split_state(s).0.len() ==> (#[trigger] split_state(s).0[i]).len() > 0,
        forall|i: int, j: int|
            0 <= i < split_state(s).0.len() && 0 <= j < split_state(s).0[i].len() ==> !is_whitespace(
                #[trigger] split_state(s).0[i][j],
            ),
        forall|j: int| 0 <= j < split_state(s).1.len() ==> !is_whitespace(#[trigger] split_state(s).1[j]),
    decreases s.len(),
{
    if s.len() > 0 {
        lemma_split_clean(s.drop_last());
        let (d0, c0) = split_state(s.drop_last());
        let done = split_state(s).0;
        if is_whitespace(s.last()) && c0.len() > 0 {
            assert(done == d0.push(c0));
            assert forall|i: int| 0 <= i < done.len() implies (#[trigger] done[i]).len() > 0 by {
                if i < d0.len() {
                    assert(done[i] == d0[i]);
                }
            }
            assert forall|i: int, j: int| 0 <= i < done.len() && 0 <= j < done[i].len()
                implies !is_whitespace(#[trigger] done[i][j]) by {
                if i < d0.len() {
                    assert(done[i] == d0[i]);
                    assert(!is_whitespace(d0[i][j]));
                } else {
                    assert(!is_whitespace(c0[j]));
                }
            }
        } else {
            assert(done == d0);
            assert forall|i: int, j: int| 0 <= i < done.len() && 0 <= j < done[i].len()
                implies !is_whitespace(#[trigger] done[i][j]) by {
                assert(!is_whitespace(d0[i][j]));
            }
        }
    }
}

/// The words of a text are non-empty and whitespace-free.
proof fn lemma_split_words_clean(s: Seq<char>)
    ensures
        forall|i: int| 0 <= i < words(s).len() ==> (#[trigger] words(s)[i]).len() > 0,
        forall|i: int, j: int|
            0 <= i < words(s).len() && 0 <= j < words(s)[i].len() ==> !is_whitespace(
                #[trigger] words(s)[i][j],
            ),
{
    lemma_split_clean(s);
    let (done, cur) = split_state(s);
    assert forall|i: int| 0 <= i < words(s).len() implies (#[trigger] words(s)[i]).len() > 0 by {
        if i < done.len() {
            assert(words(s)[i] == done[i]);
        }
    }
    assert forall|i: int, j: int|
        0 <= i < words(s).len() && 0 <= j < words(s)[i].len() implies !is_whitespace(
            #[trigger] words(s)[i][j],
        ) by {
        if i < done.len() {
            assert(words(s)[i] == done[i]);
            assert(!is_whitespace(done[i][j]));
        } else {
            assert(words(s)[i] == cur);
            assert(!is_whitespace(cur[j]));
        }
    }
}

/// The kinds that the printer tells apart, as character sequences: their
/// lengths and, where two have the same length, their first characters.
proof fn lemma_kind_names()
    ensures
        "file_version"@.len() == 12,
        "comment"@.len() == 7,
        "dtsi_include"@.len() == 12,
        "preproc_include"@.len() == 15,
        "preproc_def"@.len() == 11,
        "preproc_function_def"@.len() == 20,
        "preproc_ifdef"@.len() == 13,
        "preproc_ifdef"@[0] == 'p',
        "identifier"@.len() == 10,
        "integer_literal"@.len() == 15,
        "string_literal"@.len() == 14,
        "unit_address"@.len() == 12,
        "node"@.len() == 4,
        "property"@.len() == 8,
        "byte_string_literal"@.len() == 19,
        "integer_cells"@.len() == 13,
        "integer_cells"@[0] == 'i',
        "@"@.len() == 1,
        "{"@.len() == 1,
        ":"@.len() == 1,
        ";"@.len() == 1,
        ","@.len() == 1,
        "="@.len() == 1,
        "}"@.len() == 1,
{
    reveal_strlit("file_version");
    reveal_strlit("comment");
    reveal_strlit("dtsi_include");
    reveal_strlit("preproc_include");
    reveal_strlit("preproc_def");
    reveal_strlit("preproc_function_def");
    reveal_strlit("preproc_ifdef");
    reveal_strlit("identifier");
    reveal_strlit("integer_literal");
    reveal_strlit("string_literal");
    reveal_strlit("unit_address");
    reveal_strlit("node");
    reveal_strlit("property");
    reveal_strlit("byte_string_literal");
    reveal_strlit("integer_cells");
    reveal_strlit("@");
    reveal_strlit("{");
    reveal_strlit(":");
    reveal_strlit(";");
    reveal_strlit(",");
    reveal_strlit("=");
    reveal_strlit("}");
}

/// A function-like `#define`: `#define `, the name and right after it, with
/// nothing between, the parameter list, then a space and the value, ending its
/// line. A blank line follows where the next item is not a directive.
pub proof fn law_function_define_keeps_name_and_parameters_together(
    n: SyntaxNode,
    prev: Option<SyntaxNode>,
    next: Option<SyntaxNode>,
    ctx: ContextView,
)
    requires
        n.kind@ == "preproc_function_def"@,
        n.children@.len() >= 4,
    ensures
        format_node(n, prev, next, ctx) == Some(
            "#define "@ + n.children@[1].text@ + n.children@[2].text@ + " "@ + n.children@[3].text@
                + "\n"@ + match next {
                Some(x) => if x.kind@ == "preproc_include"@ || x.kind@ == "preproc_ifdef"@
                    || x.kind@ == "preproc_def"@ || x.kind@ == "preproc_function_def"@ {
                    Seq::<char>::empty()
                } else {
                    "\n"@
                },
                None => Seq::<char>::empty(),
            },
        ),
{
    lemma_kind_names();
    let k = n.kind@;
    assert(k != "file_version"@ && k != "comment"@ && k != "dtsi_include"@);
    assert(k != "preproc_include"@ && k != "preproc_def"@);
}

/// The texts of the named children of `n`: the cells of a cell list.
pub open spec fn cell_texts(n: SyntaxNode) -> Seq<Seq<char>> {
    named_of(n.children@).map_values(|c: SyntaxNode| c.text@)
}

/// An integer cell list `<..>` that is not a keymap's bindings (no `keymap`
/// node above it, or no `bindings` property) is its cells in order, in lines of
/// the entry size (`#address-cells` + `#size-cells` for `reg`, else 16), and on
/// one line, separated by single spaces, where they fit in one line: whatever
/// the name of its property.
pub proof fn law_cell_lists_outside_keymaps(
    n: SyntaxNode,
    prev: Option<SyntaxNode>,
    next: Option<SyntaxNode>,
    ctx: ContextView,
    k: nat,
)
    requires
        n.kind@ == "integer_cells"@,
        !(ctx.keymap && ctx.bindings),
        k == (if ctx.identifier == Some("reg"@) {
            ctx.address_cells + ctx.size_cells
        } else {
            16
        }),
        0 < k <= u32::MAX,
    ensures
        int_layout_ok(cell_texts(n).len(), k, ctx) ==> format_node(n, prev, next, ctx) == Some(
            "<"@ + int_layout(cell_texts(n), k, continuation(ctx)) + ">"@,
        ),
        cell_texts(n).len() <= k ==> format_node(n, prev, next, ctx) == Some(
            "<"@ + join_with_spaces(cell_texts(n)) + ">"@,
        ),
{
    lemma_kind_names();
    let kind = n.kind@;
    assert(kind != "preproc_ifdef"@) by {
        assert(kind[0] == 'i');
    }
    assert(chunk_size(ctx) == Some(k as u32));
    if cell_texts(n).len() <= k {
        law_short_cell_list_on_one_line(cell_texts(n), k, continuation(ctx));
    }
}

/// Printing a file starts with the Devicetree defaults in force:
/// `#address-cells` 2 and `#size-cells` 1, at indentation 0, outside any keymap
/// and any identifier. So a `reg` list with no declaration above it comes in
/// entries of 3 cells.
pub proof fn law_printing_starts_with_default_cells(root: SyntaxNode, config: ConfigView)
    ensures
        format_document(root, config) == {
            let start = ContextView {
                indent: 0,
                keymap: false,
                bindings: false,
                identifier: None,
                address_cells: 2,
                size_cells: 1,
                config,
            };
            if root.children@.len() == 0 {
                format_node(root, None, None, start)
            } else {
                format_children(root, 0, start)
            }
        },
        chunk_size(
            child_context(
                ContextView {
                    indent: 0,
                    keymap: false,
                    bindings: false,
                    identifier: None,
                    address_cells: 2,
                    size_cells: 1,
                    config,
                },
                "reg"@,
                None,
                None,
            ),
        ) == Some(3u32),
{
}

/// The texts `parts`, one after the other.
pub open spec fn concat_all(parts: Seq<Seq<char>>) -> Seq<char>
    decreases parts.len(),
{
    if parts.len() == 0 {
        Seq::empty()
    } else {
        concat_all(parts.drop_last()) + parts.last()
    }
}

/// The spaces after the `i`-th cell of a keymap table of `row` cells per row:
/// none after the last cell of a row; after any other, enough to fill the cell
/// out to the width of its own column plus 3.
pub open spec fn cell_padding(items: Seq<Seq<char>>, row: nat, i: int) -> nat {
    if (i + 1) % (row as int) == 0 {
        0
    } else {
        let width = column_widths(items, row)[i % (row as int)] + 3;
        if width > items[i].len() {
            (width - items[i].len()) as nat
        } else {
            0
        }
    }
}

/// The `i`-th cell of a keymap table as printed: a new line starting with
/// `ind` before the first cell of each row, then the cell and its padding.
pub open spec fn table_cell(items: Seq<Seq<char>>, row: nat, ind: Seq<char>, i: int) -> Seq<char> {
    (if i % (row as int) == 0 {
        "\n"@ + ind
    } else {
        Seq::<char>::empty()
    }) + items[i] + spaces(cell_padding(items, row, i))
}

/// `n` spaces are `n` characters.
proof fn lemma_spaces_len(n: nat)
    ensures
        spaces(n).len() == n,
    decreases n,
{
    if n > 0 {
        lemma_spaces_len((n - 1) as nat);
    }
}

/// A padded cell that does not end its row takes exactly the width of its
/// column plus 3 characters (or its own length, where it is longer), so every
/// column starts at the same place on every row.
pub proof fn law_keymap_cell_takes_its_column_width(items: Seq<Seq<char>>, row: nat, i: int)
    requires
        row > 0,
        0 <= i < items.len(),
        (i + 1) % (row as int) != 0,
    ensures
        (items[i] + spaces(cell_padding(items, row, i))).len() == if column_widths(items, row)[i
            % (row as int)] + 3 > items[i].len() {
            column_widths(items, row)[i % (row as int)] + 3
        } else {
            items[i].len() as int
        },
{
    lemma_spaces_len(cell_padding(items, row, i));
}

/// The rows of the first `m` cells are the first `m` printed cells.
proof fn lemma_binding_rows_cells(items: Seq<Seq<char>>, row: nat, ind: Seq<char>, m: int)
    requires
        row > 0,
        0 <= m <= items.len(),
    ensures
        binding_rows(items.take(m), row, column_widths(items, row), ind) == concat_all(
            Seq::new(m as nat, |i: int| table_cell(items, row, ind, i)),
        ),
    decreases m,
{
    let cells = Seq::new(m as nat, |i: int| table_cell(items, row, ind, i));
    if m == 0 {
        assert(items.take(0).len() == 0);
    } else {
        lemma_binding_rows_cells(items, row, ind, m - 1);
        let i = m - 1;
        assert(items.take(m).drop_last() =~= items.take(i));
        assert(cells.drop_last() =~= Seq::new(i as nat, |j: int| table_cell(items, row, ind, j)));
        assert(items.take(m).last() == items[i]);
        let pad = cell_padding(items, row, i);
        if pad == 0 {
            assert(spaces(0) =~= Seq::<char>::empty());
        }
        let lead = if i % (row as int) == 0 {
            "\n"@ + ind
        } else {
            Seq::<char>::empty()
        };
        let prefix = concat_all(cells.drop_last());
        assert(prefix + lead + (items[i] + spaces(pad)) =~= prefix + (lead + items[i] + spaces(pad)));
    }
}

/// A Zephyr keymap's bindings print as a table: after `<`, each row of cells
/// on a line of its own that starts one level deeper than the closing `>`;
/// every cell but the last of its row padded with spaces to the width of its
/// own column plus 3 (`cell_padding`), the last of a row not padded.
pub proof fn law_keymap_cells_padded_to_their_column(
    n: SyntaxNode,
    prev: Option<SyntaxNode>,
    next: Option<SyntaxNode>,
    ctx: ContextView,
)
    requires
        n.kind@ == "integer_cells"@,
        ctx.keymap && ctx.bindings,
        format_node(n, prev, next, ctx) is Some,
    ensures
        format_node(n, prev, next, ctx) == Some(
            "<"@ + concat_all(
                Seq::new(
                    keymap_cells(n, ctx).len(),
                    |i: int|
                        table_cell(
                            keymap_cells(n, ctx),
                            ctx.config.row_size,
                            indentation(ctx.indent),
                            i,
                        ),
                ),
            ) + "\n"@ + indentation((ctx.indent - 1) as nat) + ">"@,
        ),
{
    lemma_kind_names();
    let kind = n.kind@;
    assert(kind != "preproc_ifdef"@) by {
        assert(kind[0] == 'i');
    }
    let items = keymap_cells(n, ctx);
    let row = ctx.config.row_size;
    let ind = indentation(ctx.indent);
    if items.len() > 0 {
        lemma_binding_rows_cells(items, row, ind, items.len() as int);
        assert(items.take(items.len() as int) =~= items);
    } else {
        assert(Seq::new(0, |i: int| table_cell(items, row, ind, i)) =~= Seq::<Seq<char>>::empty());
    }
}

/// Lemma: the greatest of `lens[j]`, `lens[j + row]`, ... is one of them.
proof fn lemma_column_max_attained(lens: Seq<usize>, row: nat, j: int)
    requires
        row > 0,
        0 <= j < lens.len(),
    ensures
        exists|q: nat| j + q * row < lens.len() && #[trigger] lens[j + q * row] == column_max(lens, row, j),
    decreases lens.len() - j,
{
    if j + row < lens.len() {
        lemma_column_max_attained(lens, row, j + row);
        let q = choose|q: nat| j + row + q * row < lens.len() && #[trigger] lens[j + row + q * row]
            == column_max(lens, row, j + row);
        if lens[j] > column_max(lens, row, j + row) {
            assert(lens[j + 0 * row] == column_max(lens, row, j));
        } else {
            assert(j + row + q * row == j + (q + 1) * row) by (nonlinear_arith);
            assert(lens[j + (q + 1) as nat * row] == column_max(lens, row, j));
        }
    } else {
        assert(column_max(lens, row, j + row) == 0);
        assert(lens[j + 0 * row] == column_max(lens, row, j));
    }
}

/// The width of a column of a keymap table is the length in bytes of one of
/// its cells (0 for a column without cells); with `law_cells_fit_column_width`,
/// the length of its longest cell.
pub proof fn law_column_width_is_a_cell_length(items: Seq<Seq<char>>, row: nat, c: int)
    requires
        row > 0,
        0 <= c < row,
    ensures
        c < items.len() ==> exists|j: int|
            0 <= j < items.len() && j % (row as int) == c && byte_len(items[j]) == #[trigger] column_widths(
                items,
                row,
            )[c],
        c >= items.len() ==> column_widths(items, row)[c] == 0,
{
    let lens = byte_lens(items);
    if c < items.len() {
        lemma_column_max_attained(lens, row, c);
        let q = choose|q: nat| c + q * row < lens.len() && #[trigger] lens[c + q * row] == column_max(lens, row, c);
        let j = c + q * row;
        vstd::arithmetic::div_mod::lemma_mod_multiples_vanish(q as int, c, row as int);
        vstd::arithmetic::div_mod::lemma_small_mod(c as nat, row);
        assert(j == row * q + c) by (nonlinear_arith)
            requires
                j == c + q * row,
        ;
        assert(j % (row as int) == c);
        assert(byte_len(items[j]) == column_widths(items, row)[c]);
    }
}

} // verus!
