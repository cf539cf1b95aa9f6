use vstd::prelude::*;

use crate::context::Context;
use crate::context::ContextView;
use crate::format::{
    all_digits, cell_number, cells_value, digit_value, digits_value, nth_named,
    child_context, format_node, is_verbatim_kind, token_out,
    byte_len, byte_lens, column_max, column_widths, comment_text, fill_layout, group_bindings,
    group_state, indentation, int_layout, spaces, starts_with_slashes, strip_slashes,
};
use crate::syntax::SyntaxNode;
use crate::text::{is_whitespace, trim, trim_end, trim_start};

verus! {

/// Raising the indentation of a context by `k` levels and lowering it by `k`
/// again gives back the same context.
pub proof fn law_inc_dec_roundtrip(ctx: Context, k: nat)
    requires
        ctx.indent + k <= usize::MAX,
    ensures
        ctx.spec_inc(k).spec_dec(k) == ctx,
{
}

/// `n` spaces are `n` times the character ' '.
proof fn lemma_spaces(n: nat)
    ensures
        spaces(n) =~= Seq::new(n, |i: int| ' '),
    decreases n,
{
    if n > 0 {
        lemma_spaces((n - 1) as nat);
    }
}

/// `n` levels of indentation are `4 * n` spaces.
pub proof fn law_indentation_is_spaces(n: nat)
    ensures
        indentation(n) == spaces(4 * n),
    decreases n,
{
    reveal_strlit("    ");
    lemma_spaces(4 * n);
    if n > 0 {
        law_indentation_is_spaces((n - 1) as nat);
        lemma_spaces(4 * ((n - 1) as nat));
        assert(indentation(n) =~= Seq::new(4 * n, |i: int| ' '));
    } else {
        assert(indentation(n) =~= Seq::new(4 * n, |i: int| ' '));
    }
}


/// The maximum over a column bounds each entry `q` rows further down.
proof fn lemma_column_max_bounds(lens: Seq<usize>, row: nat, c: int, q: nat)
    requires
        row > 0,
        0 <= c,
        c + q * row < lens.len(),
    ensures
        lens[c + q * row] <= column_max(lens, row, c),
    decreases q,
{
    if q > 0 {
        assert(c + q * row == (c + row) + ((q - 1) as nat) * row) by (nonlinear_arith)
            requires
                q > 0,
        ;
        lemma_column_max_bounds(lens, row, c + row, (q - 1) as nat);
        assert(c < lens.len()) by (nonlinear_arith)
            requires
                c + q * row < lens.len(),
                q > 0,
                row > 0,
        ;
        assert(column_max(lens, row, c + row) <= column_max(lens, row, c));
    } else {
        assert(c + q * row == c) by (nonlinear_arith)
            requires
                q == 0,
        ;
    }
}

/// Every cell of a keymap table fits the width of its column: the width of a
/// column is at least the length in bytes of each cell in it.
pub proof fn law_cells_fit_column_width(items: Seq<Seq<char>>, row: nat, j: int)
    requires
        row > 0,
        0 <= j < items.len(),
    ensures
        byte_len(items[j]) <= column_widths(items, row)[j % (row as int)],
{
    let r = row as int;
    vstd::arithmetic::div_mod::lemma_fundamental_div_mod(j, r);
    vstd::arithmetic::div_mod::lemma_mod_pos_bound(j, r);
    vstd::arithmetic::div_mod::lemma_div_pos_is_pos(j, r);
    let q = (j / r) as nat;
    assert(j % r + q * row == j) by (nonlinear_arith)
        requires
            j == r * (j / r) + j % r,
            q == j / r,
            r == row,
    ;
    lemma_column_max_bounds(byte_lens(items), row, j % r, q);
}


/// What `trim_start` leaves starts with a non-whitespace character.
proof fn lemma_trim_start_head(s: Seq<char>)
    ensures
        trim_start(s).len() > 0 ==> !is_whitespace(trim_start(s)[0]),
        trim_start(s).len() <= s.len(),
    decreases s.len(),
{
    if s.len() > 0 && is_whitespace(s[0]) {
        lemma_trim_start_head(s.drop_first());
    }
}

/// What `trim_end` leaves is a prefix of its argument that ends with a
/// non-whitespace character.
proof fn lemma_trim_end_prefix(s: Seq<char>)
    ensures
        trim_end(s).len() <= s.len(),
        trim_end(s) == s.subrange(0, trim_end(s).len() as int),
        trim_end(s).len() > 0 ==> !is_whitespace(trim_end(s).last()),
    decreases s.len(),
{
    if s.len() > 0 && is_whitespace(s.last()) {
        lemma_trim_end_prefix(s.drop_last());
        assert(s.drop_last().subrange(0, trim_end(s).len() as int) =~= s.subrange(
            0,
            trim_end(s).len() as int,
        ));
    } else {
        assert(s.subrange(0, s.len() as int) =~= s);
    }
}

/// Trimming a trimmed text changes nothing.
proof fn lemma_trim_trimmed(x: Seq<char>)
    ensures
        trim(trim(x)) == trim(x),
{
    let y = trim_start(x);
    let z = trim_end(y);
    lemma_trim_start_head(x);
    lemma_trim_end_prefix(y);
    if z.len() > 0 {
        assert(z[0] == y[0]);
    }
    assert(trim_start(z) == z);
    lemma_trim_end_prefix(z);
    assert(trim_end(z) == z);
}

/// A leading space does not change what trimming gives.
proof fn lemma_trim_leading_space(t: Seq<char>)
    ensures
        trim(seq![' '] + t) == trim(t),
{
    let s = seq![' '] + t;
    assert(is_whitespace(' '));
    assert(s.drop_first() =~= t);
}

/// Formatting a formatted comment changes nothing: a line comment keeps the
/// single space after `//` and its trimmed text, a block comment stays as it is.
pub proof fn law_comment_text_idempotent(c: Seq<char>)
    ensures
        comment_text(comment_text(c)) == comment_text(c),
{
    reveal_strlit("// ");
    if starts_with_slashes(c) {
        let t = trim(strip_slashes(c));
        let f = "// "@ + t;
        assert(starts_with_slashes(f));
        assert(f.subrange(2, f.len() as int) =~= seq![' '] + t);
        assert(!starts_with_slashes(seq![' '] + t));
        assert(strip_slashes(seq![' '] + t) == seq![' '] + t);
        assert(strip_slashes(f) == strip_slashes(f.subrange(2, f.len() as int)));
        assert(strip_slashes(f) == seq![' '] + t);
        lemma_trim_leading_space(t);
        lemma_trim_trimmed(strip_slashes(c));
    }
}


/// The number of key cells (entries `1`) among the first `p` entries of `mask`.
pub open spec fn keys_before(mask: Seq<u8>, p: int) -> nat
    decreases mask.len(),
{
    if p <= 0 || mask.len() == 0 {
        0
    } else {
        (if mask[0] == 1 {
            1nat
        } else {
            0nat
        }) + keys_before(mask.drop_first(), p - 1)
    }
}

/// A keymap table has one cell per entry of the layout, and the bindings fill
/// its key cells in order: the key cell after `r` other key cells holds the
/// binding at `r`, or nothing once the bindings have run out; every other cell
/// is empty.
pub proof fn law_bindings_fill_key_cells_in_order(mask: Seq<u8>, bindings: Seq<Seq<char>>, p: int)
    requires
        0 <= p < mask.len(),
    ensures
        fill_layout(mask, bindings).len() == mask.len(),
        mask[p] == 1 ==> fill_layout(mask, bindings)[p] == (if keys_before(mask, p)
            < bindings.len() {
            bindings[keys_before(mask, p) as int]
        } else {
            Seq::empty()
        }),
        mask[p] != 1 ==> fill_layout(mask, bindings)[p] == Seq::<char>::empty(),
    decreases mask.len(),
{
    if p > 0 {
        let rest = if mask[0] == 1 && bindings.len() > 0 {
            bindings.drop_first()
        } else {
            bindings
        };
        law_bindings_fill_key_cells_in_order(mask.drop_first(), rest, p - 1);
        assert(mask.drop_first()[p - 1] == mask[p]);
    } else {
        lemma_fill_layout_len(mask.drop_first(), if mask[0] == 1 && bindings.len() > 0 {
            bindings.drop_first()
        } else {
            bindings
        });
    }
}

/// A keymap table has one cell per entry of the layout.
proof fn lemma_fill_layout_len(mask: Seq<u8>, bindings: Seq<Seq<char>>)
    ensures
        fill_layout(mask, bindings).len() == mask.len(),
    decreases mask.len(),
{
    if mask.len() > 0 {
        if mask[0] == 1 && bindings.len() > 0 {
            lemma_fill_layout_len(mask.drop_first(), bindings.drop_first());
        } else {
            lemma_fill_layout_len(mask.drop_first(), bindings);
        }
    }
}

/// Every binding of a keymap but the first starts with `&`: a token that starts
/// with `&` is what starts a new binding.
pub proof fn law_bindings_start_with_reference(tokens: Seq<Seq<char>>, i: int)
    requires
        1 <= i < group_bindings(tokens).len(),
    ensures
        group_bindings(tokens)[i].len() > 0,
        group_bindings(tokens)[i][0] == '&',
{
    lemma_group_state(tokens);
}

/// Every completed binding but the first, and the one being read once one is
/// completed, starts with `&`.
proof fn lemma_group_state(tokens: Seq<Seq<char>>)
    ensures
        forall|i: int|
            1 <= i < group_state(tokens).0.len() ==> (#[trigger] group_state(tokens).0[i]).len()
                > 0 && group_state(tokens).0[i][0] == '&',
        group_state(tokens).0.len() > 0 ==> group_state(tokens).1.len() > 0
            && group_state(tokens).1[0] == '&',
    decreases tokens.len(),
{
    if tokens.len() > 0 {
        lemma_group_state(tokens.drop_last());
        let (done, item) = group_state(tokens.drop_last());
        let t = tokens.last();
        if item.len() > 0 && t.len() > 0 && t[0] == '&' {
            assert(done.push(item).len() > 0);
        } else if item.len() > 0 {
            assert((item + " "@ + t)[0] == item[0]);
        }
    }
}

/// The texts of `items` separated by single spaces.
pub open spec fn join_with_spaces(items: Seq<Seq<char>>) -> Seq<char>
    decreases items.len(),
{
    if items.len() == 0 {
        Seq::empty()
    } else if items.len() == 1 {
        items[0]
    } else {
        join_with_spaces(items.drop_last()) + " "@ + items.last()
    }
}

/// A cell list of at most `k` items stays on one line: its items separated by
/// single spaces.
pub proof fn law_short_cell_list_on_one_line(items: Seq<Seq<char>>, k: nat, cont: Seq<char>)
    requires
        items.len() <= k,
    ensures
        int_layout(items, k, cont) == join_with_spaces(items),
    decreases items.len(),
{
    if items.len() > 0 {
        law_short_cell_list_on_one_line(items.drop_last(), k, cont);
        let j = items.len() - 1;
        if j > 0 {
            vstd::arithmetic::div_mod::lemma_small_mod(j as nat, k);
        } else {
            assert(int_layout(items.drop_last(), k, cont) =~= Seq::empty());
            assert(int_layout(items, k, cont) =~= items[0]);
        }
    }
}


/// A closing brace lines up with the node that it closes: among the children of
/// a node printed at indentation `ctx.indent`, a `}` is printed at that same
/// indentation.
pub proof fn law_closing_brace_aligns_with_its_node(
    brace: SyntaxNode,
    prev: Option<SyntaxNode>,
    next: Option<SyntaxNode>,
    ctx: ContextView,
    id: Seq<char>,
    address: Option<u32>,
    size: Option<u32>,
)
    requires
        brace.kind@ == "}"@,
    ensures
        format_node(brace, prev, next, child_context(ctx, id, address, size)) == Some(
            indentation(ctx.indent) + "}"@,
        ),
{
    reveal_strlit("}");
    reveal_strlit("file_version");
    reveal_strlit("comment");
    reveal_strlit("dtsi_include");
    reveal_strlit("preproc_include");
    reveal_strlit("preproc_def");
    reveal_strlit("preproc_function_def");
    reveal_strlit("preproc_ifdef");
    reveal_strlit("identifier");
    reveal_strlit("integer_literal");
    reveal_strlit("string_literal");
    reveal_strlit("unit_address");
    reveal_strlit("node");
    reveal_strlit("property");
    reveal_strlit("byte_string_literal");
    reveal_strlit("integer_cells");
    reveal_strlit("@");
    reveal_strlit("{");
    reveal_strlit(":");
    reveal_strlit(";");
    reveal_strlit(",");
    reveal_strlit("=");
    let k = brace.kind@;
    assert(k.len() == 1);
    assert("file_version"@.len() == 12);
    assert(k != "file_version"@);
    assert(k != "comment"@);
    assert(k != "dtsi_include"@);
    assert(k != "preproc_include"@);
    assert(k != "preproc_def"@);
    assert(k != "preproc_function_def"@);
    assert(k != "preproc_ifdef"@);
    assert(!is_verbatim_kind(k));
    assert(k != "node"@ && k != "property"@);
    assert(k != "byte_string_literal"@);
    assert(k != "integer_cells"@);
    assert(k[0] == '}');
    assert(k != "@"@) by {
        assert("@"@[0] == '@');
    }
    assert(k != "{"@) by {
        assert("{"@[0] == '{');
    }
    assert(k != ":"@) by {
        assert(":"@[0] == ':');
    }
    assert(k != ";"@) by {
        assert(";"@[0] == ';');
    }
    assert(k != ","@) by {
        assert(","@[0] == ',');
    }
    assert(k != "="@) by {
        assert("="@[0] == '=');
    }
    assert(token_out(k) is None);
}

/// The character of the digit `d`: `0`-`9`, then lower-case letters.
pub open spec fn digit_char(d: nat) -> char {
    if d < 10 {
        (0x30 + d) as char
    } else {
        (0x61 + d - 10) as char
    }
}

/// The digits of `v` in base `radix`, most significant first and with no
/// leading zero: what `v.to_string()` writes for base 10, and what
/// `format!("{:x}", v)` writes for base 16.
pub open spec fn radix_digits(v: nat, radix: nat) -> Seq<char>
    decreases v,
{
    if radix < 2 || v < radix {
        seq![digit_char(v)]
    } else {
        proof {
            vstd::arithmetic::div_mod::lemma_div_decreases(v as int, radix as int);
        }
        radix_digits(v / radix, radix).push(digit_char(v % radix))
    }
}

/// A digit below `radix` reads back as itself.
proof fn lemma_digit_char_value(d: nat, radix: u32)
    requires
        2 <= radix <= 36,
        d < radix,
    ensures
        digit_value(digit_char(d), radix) == Some(d),
{
    if d < 10 {
        assert(digit_char(d) as u32 == 0x30 + d);
    } else {
        assert(digit_char(d) as u32 == 0x61 + d - 10);
    }
}

/// The digits of `v` in base `radix` are digits of that base, and they write `v`.
proof fn lemma_radix_digits_value(v: nat, radix: u32)
    requires
        2 <= radix <= 36,
    ensures
        radix_digits(v, radix as nat).len() > 0,
        all_digits(radix_digits(v, radix as nat), radix),
        digits_value(radix_digits(v, radix as nat), radix) == v,
    decreases v,
{
    let s = radix_digits(v, radix as nat);
    if v < radix {
        lemma_digit_char_value(v, radix);
        assert(s.drop_last() =~= Seq::<char>::empty());
        assert(digits_value(Seq::<char>::empty(), radix) == 0);
        assert(digits_value(s, radix) == digits_value(s.drop_last(), radix) * (radix as nat) + v);
    } else {
        let q = v / (radix as nat);
        let r = v % (radix as nat);
        vstd::arithmetic::div_mod::lemma_div_decreases(v as int, radix as int);
        lemma_radix_digits_value(q, radix);
        lemma_digit_char_value(r, radix);
        let head = radix_digits(q, radix as nat);
        assert(s.drop_last() =~= head);
        assert forall|i: int| 0 <= i < s.len() implies (#[trigger] digit_value(s[i], radix)) is Some by {
            if i < head.len() {
                assert(s[i] == head[i]);
                assert(digit_value(head[i], radix) is Some);
            }
        }
        vstd::arithmetic::div_mod::lemma_fundamental_div_mod(v as int, radix as int);
        assert(q * radix + r == v) by (nonlinear_arith)
            requires
                v == radix * q + r,
        ;
        assert(s.last() == digit_char(r));
        assert(digits_value(s, radix) == digits_value(head, radix) * (radix as nat) + r);
    }
}

/// A cell count written as `v.to_string()`, or as `format!("0x{:x}", v)`, reads
/// back as `v`.
pub proof fn law_cell_number_reads_back(v: u32)
    ensures
        cell_number(radix_digits(v as nat, 10)) == Some(v),
        cell_number(seq!['0', 'x'] + radix_digits(v as nat, 16)) == Some(v),
{
    let d = radix_digits(v as nat, 10);
    lemma_radix_digits_value(v as nat, 10);
    assert(digit_value(d[0], 10) is Some);
    assert(d[0] != '+');
    if d.len() >= 2 {
        assert(digit_value(d[1], 10) is Some);
        assert(d[1] != 'x');
    }
    let h = radix_digits(v as nat, 16);
    lemma_radix_digits_value(v as nat, 16);
    assert(digit_value(h[0], 16) is Some);
    assert(h[0] != '+');
    let t = seq!['0', 'x'] + h;
    assert(t.subrange(2, t.len() as int) =~= h);
}

/// A text written as `v.to_string()` or as `format!("0x{:x}", v)`.
pub open spec fn writes_number(s: Seq<char>, v: u32) -> bool {
    s == radix_digits(v as nat, 10) || s == seq!['0', 'x'] + radix_digits(v as nat, 16)
}

/// A `#address-cells` or `#size-cells` property whose first cell is written as
/// `v.to_string()` or as `format!("0x{:x}", v)` declares `v`.
pub proof fn law_cells_value_reads_back(prop: SyntaxNode, value: SyntaxNode, cell: SyntaxNode, v: u32)
    requires
        nth_named(prop, 1) == Some(value),
        nth_named(value, 0) == Some(cell),
        writes_number(cell.text@, v),
    ensures
        cells_value(prop) == Some(Some(v)),
{
    law_cell_number_reads_back(v);
}

/// Adding `y` at the end of `lens` raises the greatest of the entries at `j`,
/// `j + row`, ... by no less than nothing, and leaves it unchanged unless `y`
/// lands among them.
proof fn lemma_column_max_push(lens: Seq<usize>, y: usize, row: nat, j: int)
    requires
        row >= 1,
        0 <= j,
    ensures
        column_max(lens.push(y), row, j) >= column_max(lens, row, j),
        (j > lens.len() || (lens.len() - j) % (row as int) != 0) ==> column_max(lens.push(y), row, j)
            == column_max(lens, row, j),
    decreases if j <= lens.len() {
        lens.len() + 1 - j
    } else {
        0
    },
{
    let longer = lens.push(y);
    if j < lens.len() {
        lemma_column_max_push(lens, y, row, j + row);
        assert(longer[j] == lens[j]);
        vstd::arithmetic::div_mod::lemma_mod_sub_multiples_vanish(lens.len() - j, row as int);
        assert(-(row as int) + (lens.len() - j) == lens.len() - (j + row));
    } else if j == lens.len() {
        assert(column_max(longer, row, j + row) == 0);
        vstd::arithmetic::div_mod::lemma_small_mod(0, row);
        assert((lens.len() - j) % (row as int) == 0);
    }
}

/// A column of a keymap table never narrows when a cell is added at the end:
/// only the column that the new cell lands in (the one at the old length modulo
/// the row size) can widen; every other column keeps its width.
pub proof fn law_column_widths_grow(items: Seq<Seq<char>>, x: Seq<char>, row: nat, c: int)
    requires
        row >= 1,
        0 <= c < row,
    ensures
        column_widths(items.push(x), row)[c] >= column_widths(items, row)[c],
        c != items.len() % row ==> column_widths(items.push(x), row)[c]
            == column_widths(items, row)[c],
{
    assert(byte_lens(items.push(x)) =~= byte_lens(items).push(byte_len(x)));
    lemma_column_max_push(byte_lens(items), byte_len(x), row, c);
    let n = items.len() as int;
    if c <= n && (n - c) % (row as int) == 0 {
        vstd::arithmetic::div_mod::lemma_fundamental_div_mod(n - c, row as int);
        vstd::arithmetic::div_mod::lemma_fundamental_div_mod(n, row as int);
        vstd::arithmetic::div_mod::lemma_mod_add_multiples_vanish(c, row as int);
        let q = (n - c) / (row as int);
        assert(n == row * q + c) by (nonlinear_arith)
            requires
                n - c == row * q + 0,
        ;
        vstd::arithmetic::div_mod::lemma_mod_multiples_vanish(q, c, row as int);
        vstd::arithmetic::div_mod::lemma_small_mod(c as nat, row);
    }
}

} // verus!
