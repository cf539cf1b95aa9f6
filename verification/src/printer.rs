//! The printer: writes a syntax tree as formatted Devicetree source, exactly as
//! `format` describes.
use std::collections::VecDeque;
use vstd::prelude::*;

use crate::config::{Config, ConfigView};
use crate::context::{Context, ContextView, ADDRESS_CELLS_DEFAULT, SIZE_CELLS_DEFAULT};
use crate::format::{
    binding_rows, binding_tokens, byte_lens, byte_string_out, cat, cell_list_out, cell_number,
    cells_of, cells_value, child_context, chunk_size, column_max, column_widths, comment_out,
    comment_text, continuation, directive_break, dtsi_include_out, fallback_out, fill_layout,
    first_close, format_children, format_document, format_node, group_bindings, group_state,
    identifier_len, ifdef_head, ifdef_out, ifdef_tail, indentation, initial_context,
    int_layout, int_layout_ok, integer_cells_out, is_preproc_kind, keymap_cells, keymap_ok,
    keymap_out, named_of, nested_out, next_of, nth_child, nth_named, pad_right_spec,
    parse_u32_spec, preproc_def_out, preproc_function_def_out, preproc_include_out, prev_of,
    spaces, strip_slashes, token_views, unhandled_children, unhandled_in,
    unhandled_in_document,
};
use crate::agreement::law_printing_reads_only_contents;
use crate::parser::{copies, devicetree_syntax, fits_depth, law_copies_agree, parse, syntax_copy};
use crate::syntax::SyntaxNode;
use crate::text::{
    chars_of, push_char, push_chars, split_words, string_views, trim, trim_bounds,
};
use vstd::string::{StrSliceExecFns, StringExecFns};

verus! {

/// A node that the printer has no rule for: its kind, its number of children
/// and its text.
#[derive(Debug)]
pub struct UnhandledToken {
    pub kind: String,
    pub child_count: usize,
    pub text: String,
}

/// Calls `<str as PartialEq>::eq`; claimed: the result is true exactly when the
/// two texts are the same characters.
#[verifier::external_body]
fn text_is(s: &str, t: &str) -> (b: bool)
    ensures
        b == (s@ == t@),
{
    s == t
}

/// Appends `n` levels of indentation.
pub fn push_indentation(writer: &mut String, n: usize)
    ensures
        final(writer)@ == old(writer)@ + indentation(n as nat),
{
    let mut i: usize = 0;
    while i < n
        invariant
            i <= n,
            writer@ == old(writer)@ + indentation(i as nat),
        decreases n - i,
    {
        writer.append("    ");
        i = i + 1;
    }
}

/// Appends the indentation of `ctx`.
pub fn print_indent(writer: &mut String, ctx: &Context)
    ensures
        final(writer)@ == old(writer)@ + indentation(ctx.indent as nat),
{
    push_indentation(writer, ctx.indent);
}

/// Appends `n` spaces.
pub fn push_spaces(writer: &mut String, n: usize)
    ensures
        final(writer)@ == old(writer)@ + spaces(n as nat),
{
    let mut i: usize = 0;
    while i < n
        invariant
            i <= n,
            writer@ == old(writer)@ + spaces(i as nat),
        decreases n - i,
    {
        push_char(writer, ' ');
        i = i + 1;
    }
}

/// `s` followed by spaces up to a width of `width` characters.
pub fn pad_right(s: &str, width: usize) -> (r: String)
    ensures
        r@ == pad_right_spec(s@, width as nat),
{
    let mut r = String::new();
    r.append(s);
    let n = s.unicode_len();
    if width > n {
        push_spaces(&mut r, width - n);
    }
    r
}

/// A blank line (the separator before a comment).
pub fn sep(writer: &mut String)
    ensures
        final(writer)@ == old(writer)@ + "\n"@,
{
    writer.append("\n");
}

/// Appends the comment `text` as printed (see `comment_text`).
fn print_comment_text(writer: &mut String, text: &str)
    ensures
        final(writer)@ == old(writer)@ + comment_text(text@),
{
    let v = chars_of(text);
    let len = v.len();
    if len >= 2 && v[0] == '/' && v[1] == '/' {
        writer.append("// ");
        let mut i: usize = 0;
        assert(v@.subrange(0, len as int) =~= v@);
        while i < len && len - i >= 2 && v[i] == '/' && v[i + 1] == '/'
            invariant
                i <= len == v@.len(),
                strip_slashes(v@) == strip_slashes(v@.subrange(i as int, len as int)),
            decreases len - i,
        {
            assert(v@.subrange(i as int, len as int).subrange(2, len - i) =~= v@.subrange(
                i + 2,
                len as int,
            ));
            i = i + 2;
        }
        assert(strip_slashes(v@) == v@.subrange(i as int, len as int));
        let (a, b) = trim_bounds(&v, i, len);
        push_chars(writer, &v, a, b);
    } else {
        writer.append(text);
    }
}


/// The node that `o` refers to, if any.
pub open spec fn node_opt(o: Option<&SyntaxNode>) -> Option<SyntaxNode> {
    match o {
        Some(x) => Some(*x),
        None => None,
    }
}

/// Whether `n` is a preprocessor directive.
pub fn is_preproc(n: &SyntaxNode) -> (b: bool)
    ensures
        b == is_preproc_kind(n.kind@),
{
    let k = n.kind.as_str();
    text_is(k, "preproc_include") || text_is(k, "preproc_ifdef") || text_is(k, "preproc_def")
        || text_is(k, "preproc_function_def")
}

/// The `k`-th child of `n`, or its last child where it has fewer.
fn child_at(n: &SyntaxNode, k: usize) -> (r: &SyntaxNode)
    requires
        n.children@.len() > 0,
    ensures
        *r == nth_child(*n, k as int),
{
    if k < n.children.len() {
        &n.children[k]
    } else {
        &n.children[n.children.len() - 1]
    }
}

/// Appends the blank line that ends a run of preprocessor directives.
fn print_directive_break(writer: &mut String, next: Option<&SyntaxNode>)
    ensures
        final(writer)@ == old(writer)@ + directive_break(node_opt(next)),
{
    if let Some(x) = next {
        if !is_preproc(x) {
            writer.append("\n");
        }
    }
}

fn print_comment(writer: &mut String, n: &SyntaxNode, prev: Option<&SyntaxNode>, ctx: &Context)
    ensures
        final(writer)@ == old(writer)@ + comment_out(*n, node_opt(prev), ctx@),
{
    // Add a newline before the comment if the previous node is not a comment
    if let Some(p) = prev {
        if !text_is(p.kind.as_str(), "comment") {
            sep(writer);
        }
    }
    print_indent(writer, ctx);
    // Only reformat single line comments, multi line comments are a lot
    // tougher to format properly.
    print_comment_text(writer, n.text.as_str());
    writer.append("\n");
}

fn print_dtsi_include(writer: &mut String, n: &SyntaxNode, next: Option<&SyntaxNode>, ctx: &Context)
    requires
        n.children@.len() > 0,
    ensures
        final(writer)@ == old(writer)@ + dtsi_include_out(*n, node_opt(next), ctx@),
{
    print_indent(writer, ctx);
    writer.append("/include/ ");
    writer.append(child_at(n, 1).text.as_str());
    writer.append("\n");
    // Add a newline if this is the last dtsi_include
    if let Some(x) = next {
        if !text_is(x.kind.as_str(), "dtsi_include") {
            writer.append("\n");
        }
    }
}

fn print_preproc_include(writer: &mut String, n: &SyntaxNode, next: Option<&SyntaxNode>, ctx: &Context)
    requires
        n.children@.len() > 0,
    ensures
        final(writer)@ == old(writer)@ + preproc_include_out(*n, node_opt(next), ctx@),
{
    print_indent(writer, ctx);
    writer.append("#include ");
    writer.append(child_at(n, 1).text.as_str());
    writer.append("\n");
    print_directive_break(writer, next);
}

fn print_preproc_def(writer: &mut String, n: &SyntaxNode, next: Option<&SyntaxNode>)
    requires
        n.children@.len() > 0,
    ensures
        final(writer)@ == old(writer)@ + preproc_def_out(*n, node_opt(next)),
{
    writer.append("#define ");
    // Name
    writer.append(child_at(n, 1).text.as_str());
    writer.append(" ");
    // Value
    writer.append(child_at(n, 2).text.as_str());
    writer.append("\n");
    print_directive_break(writer, next);
}

fn print_preproc_function_def(writer: &mut String, n: &SyntaxNode, next: Option<&SyntaxNode>)
    requires
        n.children@.len() > 0,
    ensures
        final(writer)@ == old(writer)@ + preproc_function_def_out(*n, node_opt(next)),
{
    writer.append("#define ");
    // Function and args
    writer.append(child_at(n, 1).text.as_str());
    writer.append(child_at(n, 2).text.as_str());
    writer.append(" ");
    // Value
    writer.append(child_at(n, 3).text.as_str());
    writer.append("\n");
    print_directive_break(writer, next);
}

/// Appends the opening line of an `#ifdef`.
fn print_ifdef_head(writer: &mut String, n: &SyntaxNode, ctx: &Context)
    requires
        n.children@.len() > 0,
    ensures
        final(writer)@ == old(writer)@ + ifdef_head(*n, ctx@),
{
    print_indent(writer, ctx);
    // #ifdef
    let v = chars_of(child_at(n, 0).text.as_str());
    let (a, b) = trim_bounds(&v, 0, v.len());
    assert(v@.subrange(0, v@.len() as int) =~= v@);
    push_chars(writer, &v, a, b);
    writer.append(" ");
    // Name
    writer.append(child_at(n, 1).text.as_str());
    writer.append("\n");
}

/// Appends the closing line of an `#ifdef`.
fn print_ifdef_tail(writer: &mut String, next: Option<&SyntaxNode>, ctx: &Context)
    ensures
        final(writer)@ == old(writer)@ + ifdef_tail(node_opt(next), ctx@),
{
    print_indent(writer, ctx);
    writer.append("#endif\n");
    print_directive_break(writer, next);
}


/// The named children of `n`, in order.
fn named_children(n: &SyntaxNode) -> (r: Vec<&SyntaxNode>)
    ensures
        r@.map_values(|c: &SyntaxNode| *c) == named_of(n.children@),
{
    let mut r: Vec<&SyntaxNode> = Vec::new();
    let mut i: usize = 0;
    while i < n.children.len()
        invariant
            i <= n.children@.len(),
            r@.map_values(|c: &SyntaxNode| *c) == named_of(n.children@.take(i as int)),
        decreases n.children@.len() - i,
    {
        let c = &n.children[i];
        assert(n.children@.take(i + 1).drop_last() =~= n.children@.take(i as int));
        if c.named {
            r.push(c);
        }
        assert(r@.map_values(|c: &SyntaxNode| *c) =~= named_of(n.children@.take(i + 1)));
        i = i + 1;
    }
    assert(n.children@.take(i as int) =~= n.children@);
    r
}

/// The `i`-th named child of `n`, if it has one (`Node::named_child`).
fn named_child(n: &SyntaxNode, i: usize) -> (r: Option<&SyntaxNode>)
    ensures
        node_opt(r) == nth_named(*n, i as int),
{
    let named = named_children(n);
    if i < named.len() {
        Some(named[i])
    } else {
        None
    }
}

/// Calls `u32::from_str_radix`, dropping its error; claimed: it gives a number
/// exactly when `s` is an optional `+` followed by at least one digit in base
/// `radix` (`0`-`9`, then letters of either case), and the number they write
/// fits in a `u32` (see `parse_u32_spec`). A radix outside `2..=36` makes the
/// call panic and is left out.
#[verifier::external_body]
fn parse_u32(s: &str, radix: u32) -> (r: Option<u32>)
    requires
        2 <= radix <= 36,
    ensures
        r == parse_u32_spec(s@, radix),
{
    u32::from_str_radix(s, radix).ok()
}

/// The number that a cell text writes (see `cell_number`).
fn cell_number_of(s: &str) -> (r: Option<u32>)
    ensures
        r == cell_number(s@),
{
    // A cell is written in hexadecimal or in decimal.
    let n = s.unicode_len();
    if n >= 2 && s.get_char(0) == '0' && s.get_char(1) == 'x' {
        parse_u32(s.substring_char(2, n), 16)
    } else {
        parse_u32(s, 10)
    }
}

/// The value of a `#address-cells` or `#size-cells` property: `Some(None)`
/// where its first cell is no number. `None` where the property lacks the
/// children that hold a value (one written `#size-cells;`, or with an empty list
/// `<>`): such a property has no value to read, and the caller reports the
/// whole node as one that cannot be printed rather than halting.
/// A cell written as `v.to_string()` or `format!("0x{:x}", v)` reads back as
/// `v` (`law_cells_value_reads_back`).
pub fn extract_cells_value(prop: &SyntaxNode) -> (r: Option<Option<u32>>)
    ensures
        r == cells_value(*prop),
{
    // A property with a single integer literal will have the format of:
    // 'identifier' = 'integer_cells'
    //                         → < 'integer_literal' >
    // Conveniently, this means we know exactly which named child contains the value needed.
    match named_child(prop, 1) {
        Some(v) => match named_child(v, 0) {
            Some(cell) => Some(cell_number_of(cell.text.as_str())),
            None => None,
        },
        None => None,
    }
}

/// Once a prefix of the children fails, so do all of them.
proof fn lemma_cells_of_none(cs: Seq<SyntaxNode>, j: int)
    requires
        0 <= j <= cs.len(),
        cells_of(cs.take(j)) is None,
    ensures
        cells_of(cs) is None,
    decreases cs.len() - j,
{
    if j < cs.len() {
        assert(cs.take(j + 1).drop_last() =~= cs.take(j));
        lemma_cells_of_none(cs, j + 1);
    } else {
        assert(cs.take(j) =~= cs);
    }
}

/// The `#address-cells` and `#size-cells` values that the properties among the
/// children of `node` declare (see `cells_of`); `None` where one of those
/// properties holds no value.
fn parse_address_and_size_cells(node: &SyntaxNode) -> (r: Option<(Option<u32>, Option<u32>)>)
    ensures
        r == cells_of(node.children@),
{
    let mut address_cells: Option<u32> = None;
    let mut size_cells: Option<u32> = None;
    let mut i: usize = 0;
    while i < node.children.len()
        invariant
            i <= node.children@.len(),
            cells_of(node.children@.take(i as int)) == Some((address_cells, size_cells)),
        decreases node.children@.len() - i,
    {
        let property = &node.children[i];
        assert(node.children@.take(i + 1).drop_last() =~= node.children@.take(i as int));
        if property.named && text_is(property.kind.as_str(), "property") {
            match named_child(property, 0) {
                None => {
                    proof {
                        lemma_cells_of_none(node.children@, i + 1);
                    }
                    return None;
                },
                Some(name) => {
                    let identifier = name.text.as_str();
                    if text_is(identifier, "#address-cells") {
                        match extract_cells_value(property) {
                            Some(v) => address_cells = v,
                            None => {
                                proof {
                                    lemma_cells_of_none(node.children@, i + 1);
                                }
                                return None;
                            },
                        }
                    } else if text_is(identifier, "#size-cells") {
                        match extract_cells_value(property) {
                            Some(v) => size_cells = v,
                            None => {
                                proof {
                                    lemma_cells_of_none(node.children@, i + 1);
                                }
                                return None;
                            },
                        }
                    }
                },
            }
        }
        i = i + 1;
    }
    assert(node.children@.take(i as int) =~= node.children@);
    Some((address_cells, size_cells))
}


/// The texts of a list of string slices.
pub open spec fn str_views(v: Seq<&str>) -> Seq<Seq<char>> {
    v.map_values(|s: &str| s@)
}

/// Appends the cell texts `int_strs` in lines of `chunk_size` (see `int_layout`).
/// A list that fits on one line stays on it; each further line starts with the
/// indentation of `ctx`, then as many spaces as the length in bytes of its
/// identifier plus 2 (see `continuation`).
pub fn print_int_strs(writer: &mut String, int_strs: &[&str], chunk_size: u32, ctx: &Context)
    requires
        chunk_size > 0,
        int_layout_ok(int_strs@.len(), chunk_size as nat, ctx@),
    ensures
        final(writer)@ == old(writer)@ + int_layout(
            str_views(int_strs@),
            chunk_size as nat,
            continuation(ctx@),
        ),
{
    let k = chunk_size as usize;
    let ghost items = str_views(int_strs@);
    let mut j: usize = 0;
    while j < int_strs.len()
        invariant
            k == chunk_size > 0,
            j <= int_strs@.len(),
            items == str_views(int_strs@),
            int_layout_ok(int_strs@.len(), chunk_size as nat, ctx@),
            writer@ == old(writer)@ + int_layout(items.take(j as int), k as nat, continuation(ctx@)),
        decreases int_strs@.len() - j,
    {
        let ghost before = writer@;
        if j != 0 {
            if j % k == 0 {
                // A new line: the indentation, then the identifier's length
                // plus 2 in spaces.
                writer.append("\n");
                print_indent(writer, ctx);
                assert(j >= k) by (nonlinear_arith)
                    requires
                        j % k == 0,
                        j > 0,
                        k > 0,
                ;
                let id_len = match ctx.identifier {
                    Some(id) => id.len(),
                    None => 0,
                };
                push_spaces(writer, id_len + 2);
                assert(writer@ =~= before + ("\n"@ + continuation(ctx@)));
            } else {
                writer.append(" ");
            }
        }
        writer.append(int_strs[j]);
        assert(items.take(j + 1).drop_last() =~= items.take(j as int));
        assert(writer@ =~= old(writer)@ + int_layout(items.take(j + 1), k as nat, continuation(ctx@)));
        j = j + 1;
    }
    assert(items.take(j as int) =~= items);
}


/// The length in bytes of the identifier of `ctx` (0 where it has none).
fn identifier_len_of(ctx: &Context) -> (r: usize)
    ensures
        r == identifier_len(ctx@),
{
    match ctx.identifier {
        Some(id) => id.len(),
        None => 0,
    }
}

/// Appends a byte string `[..]` with its bytes in lines of 16; `false` where
/// its text is not a bracketed run that can be cut inside its brackets.
fn print_byte_string(writer: &mut String, n: &SyntaxNode, ctx: &Context) -> (ok: bool)
    ensures
        old(writer)@.is_prefix_of(final(writer)@),
        ok == byte_string_out(*n, ctx@) is Some,
        ok ==> final(writer)@ == old(writer)@ + byte_string_out(*n, ctx@).unwrap(),
{
    let hex_string = chars_of(n.text.as_str());
    let len = hex_string.len();
    if len < 2 || hex_string[0] as u32 >= 0x80 || hex_string[len - 1] as u32 >= 0x80 {
        return false;
    }
    // Trim the [ and ] off of the source string we obtained.
    let words = split_words(&hex_string, 1, len - 1);
    let mut children: Vec<&str> = Vec::new();
    let mut i: usize = 0;
    while i < words.len()
        invariant
            i <= words@.len(),
            children@.len() == i,
            str_views(children@) == string_views(words@).take(i as int),
        decreases words@.len() - i,
    {
        let w = words[i].as_str();
        children.push(w);
        assert(str_views(children@)[i as int] == w@);
        assert(string_views(words@)[i as int] == words@[i as int]@);
        assert(str_views(children@) =~= string_views(words@).take(i + 1));
        i = i + 1;
    }
    assert(string_views(words@).take(i as int) =~= string_views(words@));
    if !(children.len() <= 16 || identifier_len_of(ctx) <= usize::MAX - 2) {
        return false;
    }
    writer.append("[");
    print_int_strs(writer, children.as_slice(), 16, ctx);
    writer.append("]");
    true
}

/// Appends an integer cell list `<..>` with the texts of its named children in
/// lines of `chunk_size`; `false` where `chunk_size` is 0 or the alignment of a
/// second line does not fit in a `usize`.
fn print_cell_list(writer: &mut String, n: &SyntaxNode, chunk_size: u32, ctx: &Context) -> (ok: bool)
    ensures
        old(writer)@.is_prefix_of(final(writer)@),
        ok == cell_list_out(*n, chunk_size, ctx@) is Some,
        ok ==> final(writer)@ == old(writer)@ + cell_list_out(*n, chunk_size, ctx@).unwrap(),
{
    let named = named_children(n);
    let ghost texts = named_of(n.children@).map_values(|c: SyntaxNode| c.text@);
    let mut children: Vec<&str> = Vec::new();
    let mut i: usize = 0;
    while i < named.len()
        invariant
            i <= named@.len(),
            named@.map_values(|c: &SyntaxNode| *c) == named_of(n.children@),
            texts == named_of(n.children@).map_values(|c: SyntaxNode| c.text@),
            children@.len() == i,
            str_views(children@) == texts.take(i as int),
        decreases named@.len() - i,
    {
        let w = named[i].text.as_str();
        children.push(w);
        assert(named@.map_values(|c: &SyntaxNode| *c)[i as int] == named@[i as int]);
        assert(str_views(children@)[i as int] == w@);
        assert(texts[i as int] == named@[i as int].text@);
        assert(str_views(children@) =~= texts.take(i + 1));
        i = i + 1;
    }
    assert(texts.take(i as int) =~= texts);
    if chunk_size == 0 || !(children.len() <= chunk_size as usize || identifier_len_of(ctx)
        <= usize::MAX - 2) {
        return false;
    }
    writer.append("<");
    print_int_strs(writer, children.as_slice(), chunk_size, ctx);
    writer.append(">");
    true
}


/// The trimmed texts of the children of `n` from the second on, before the `i`-th.
pub open spec fn tokens_before(n: SyntaxNode, i: int) -> Seq<Seq<char>> {
    Seq::new((i - 1) as nat, |j: int| trim(n.children@[j + 1].text@))
}

/// The tokens before the `i + 1`-th child are those before the `i`-th and the
/// trimmed text of the `i`-th.
proof fn lemma_tokens_step(n: SyntaxNode, i: int)
    requires
        1 <= i < n.children@.len(),
    ensures
        tokens_before(n, i + 1).drop_last() == tokens_before(n, i),
        tokens_before(n, i + 1).last() == trim(n.children@[i].text@),
{
    assert(tokens_before(n, i + 1).drop_last() =~= tokens_before(n, i));
}

/// The cells of the keymap table of the cell list `node`: its bindings (a `&`
/// token starts each) placed in order into the key cells of the layout.
pub fn collect_bindings(node: &SyntaxNode, ctx: &Context) -> (r: VecDeque<String>)
    requires
        node.children@.len() > 0,
    ensures
        string_views(r@) == keymap_cells(*node, ctx@),
{
    let ghost cs = node.children@;
    let mut buf: VecDeque<String> = VecDeque::new();
    let mut item = String::new();
    let mut i: usize = 1;
    while i < node.children.len() && !text_is(node.children[i].kind.as_str(), ">")
        invariant
            cs == node.children@,
            1 <= i <= cs.len(),
            first_close(cs, 1) == first_close(cs, i as int),
            group_state(tokens_before(*node, i as int)) == (string_views(buf@), item@),
        decreases cs.len() - i,
    {
        proof {
            lemma_tokens_step(*node, i as int);
        }
        let v = chars_of(node.children[i].text.as_str());
        let (a, b) = trim_bounds(&v, 0, v.len());
        assert(v@.subrange(0, v@.len() as int) =~= v@);
        // If this is a new binding, add a new item to the buffer
        if !item.as_str().is_empty() && a < b && v[a] == '&' {
            buf.push_back(item);
            item = String::new();
            assert(string_views(buf@) =~= group_state(tokens_before(*node, i as int)).0.push(
                group_state(tokens_before(*node, i as int)).1,
            ));
        }
        // Add a space between each piece of text
        if !item.as_str().is_empty() {
            item.append(" ");
        }
        // Add the current piece of text to the buffer
        push_chars(&mut item, &v, a, b);
        assert(item@ =~= group_state(tokens_before(*node, i + 1)).1);
        i = i + 1;
    }
    assert(tokens_before(*node, i as int) =~= binding_tokens(*node));
    // Add the last item to the buffer
    buf.push_back(item);
    let ghost grouped = group_bindings(binding_tokens(*node));
    assert(string_views(buf@) =~= grouped);
    // Move the items from the temporary buffer into a new vector that contains
    // the empty key spaces.
    let mask = &ctx.config.layout.bindings;
    let mut r: VecDeque<String> = VecDeque::new();
    let mut p: usize = 0;
    assert(mask@.skip(0) =~= mask@);
    assert(string_views(r@) + fill_layout(mask@.skip(0), string_views(buf@)) =~= fill_layout(
        mask@,
        grouped,
    ));
    while p < mask.len()
        invariant
            p <= mask@.len(),
            mask@ == ctx.config.layout.bindings@,
            string_views(r@) + fill_layout(mask@.skip(p as int), string_views(buf@))
                == fill_layout(mask@, grouped),
        decreases mask@.len() - p,
    {
        let ghost rest = mask@.skip(p as int);
        let ghost before = string_views(buf@);
        assert(rest.drop_first() =~= mask@.skip(p + 1));
        if mask[p] == 1 {
            match buf.pop_front() {
                Some(x) => {
                    assert(string_views(buf@) =~= before.drop_first());
                    r.push_back(x);
                },
                None => {
                    r.push_back(String::new());
                },
            }
        } else {
            r.push_back(String::new());
        }
        assert(string_views(r@) + fill_layout(mask@.skip(p + 1), string_views(buf@))
            =~= fill_layout(mask@, grouped));
        p = p + 1;
    }
    assert(mask@.skip(p as int) =~= Seq::<u8>::empty());
    assert(string_views(r@) =~= fill_layout(mask@, grouped));
    r
}


/// The greater of `a` and `b`.
pub open spec fn max_usize(a: usize, b: usize) -> usize {
    if a > b {
        a
    } else {
        b
    }
}

/// Calculate the maximum size of each column in the bindings table.
pub fn calculate_sizes(buf: &VecDeque<String>, row_size: usize) -> (sizes: Vec<usize>)
    ensures
        sizes@ == column_widths(string_views(buf@), row_size as nat),
{
    let ghost lens = byte_lens(string_views(buf@));
    let mut sizes: Vec<usize> = Vec::new();
    let mut i: usize = 0;
    while i < row_size
        invariant
            i <= row_size,
            lens == byte_lens(string_views(buf@)),
            sizes@ == column_widths(string_views(buf@), row_size as nat).take(i as int),
        decreases row_size - i,
    {
        let mut max: usize = 0;
        let mut j = i;
        while j < buf.len()
            invariant
                i < row_size,
                lens == byte_lens(string_views(buf@)),
                lens.len() == buf@.len(),
                column_max(lens, row_size as nat, i as int) == max_usize(
                    max,
                    column_max(lens, row_size as nat, j as int),
                ),
            decreases buf@.len() - j,
        {
            let len = buf[j].as_str().len();
            assert(lens[j as int] == len);
            assert(column_max(lens, row_size as nat, j as int) == max_usize(
                lens[j as int],
                column_max(lens, row_size as nat, j + row_size),
            ));
            if len > max {
                max = len;
            }
            if buf.len() - j <= row_size {
                assert(column_max(lens, row_size as nat, j + row_size) == 0);
                j = buf.len();
                assert(column_max(lens, row_size as nat, j as int) == 0);
            } else {
                j = j + row_size;
            }
        }
        sizes.push(max);
        assert(sizes@ =~= column_widths(string_views(buf@), row_size as nat).take(i + 1));
        i = i + 1;
    }
    assert(column_widths(string_views(buf@), row_size as nat).take(i as int) =~= column_widths(
        string_views(buf@),
        row_size as nat,
    ));
    sizes
}


/// A cell that does not end its row is not in the last column.
proof fn lemma_not_last_column(i: int, r: int)
    requires
        r > 0,
        i >= 0,
        (i + 1) % r != 0,
    ensures
        i % r + 1 < r,
{
    vstd::arithmetic::div_mod::lemma_fundamental_div_mod(i, r);
    vstd::arithmetic::div_mod::lemma_mod_pos_bound(i, r);
    if i % r + 1 >= r {
        let q = i / r;
        vstd::arithmetic::div_mod::lemma_mod_multiples_basic(q + 1, r);
        assert(i + 1 == (q + 1) * r) by (nonlinear_arith)
            requires
                i == r * q + i % r,
                i % r == r - 1,
        ;
    }
}

/// Appends a Zephyr keymap's cell list as a table (see `keymap_out`); `false`
/// where it cannot be printed (see `keymap_ok`): a layout with bindings but a
/// row size of 0, an indentation of 0 (the closing `>` goes one level up), or a
/// column too wide for a `usize`. On those inputs nothing is written.
fn print_bindings(writer: &mut String, node: &SyntaxNode, ctx: &Context) -> (ok: bool)
    requires
        node.children@.len() > 0,
    ensures
        old(writer)@.is_prefix_of(final(writer)@),
        ok == keymap_out(*node, ctx@) is Some,
        ok ==> final(writer)@ == old(writer)@ + keymap_out(*node, ctx@).unwrap(),
{
    let buf = collect_bindings(node, ctx);
    let ghost items = string_views(buf@);
    let row_size = ctx.config.layout.row_size();
    if buf.len() > 0 && row_size == 0 {
        return false;
    }
    if ctx.indent < 1 {
        return false;
    }
    let sizes = calculate_sizes(&buf, row_size);
    let ghost widths = column_widths(items, row_size as nat);
    let mut c: usize = 0;
    while row_size > 0 && c < row_size - 1
        invariant
            sizes@ == widths,
            widths == column_widths(items, row_size as nat),
            items == keymap_cells(*node, ctx@),
            row_size == ctx@.config.row_size,
            widths.len() == row_size,
            c <= row_size,
            forall|d: int| 0 <= d < c ==> #[trigger] widths[d] + 3 <= usize::MAX,
        decreases row_size - c,
    {
        if sizes[c] > usize::MAX - 3 {
            assert(!(column_widths(items, row_size as nat)[c as int] + 3 <= usize::MAX));
            return false;
        }
        c = c + 1;
    }
    assert(keymap_ok(items, ctx@));
    writer.append("<");
    let ghost start = writer@;
    let mut i: usize = 0;
    while i < buf.len()
        invariant
            i <= buf@.len(),
            items == string_views(buf@),
            sizes@ == widths,
            widths == column_widths(items, row_size as nat),
            row_size == ctx@.config.row_size,
            buf@.len() > 0 ==> row_size > 0,
            keymap_ok(items, ctx@),
            writer@ == start + binding_rows(items.take(i as int), row_size as nat, widths, indentation(ctx.indent as nat)),
        decreases buf@.len() - i,
    {
        let col = i % row_size;
        // Add a newline at the start of each row
        if col == 0 {
            writer.append("\n");
            print_indent(writer, ctx);
        }
        // Don't add padding to the last binding in the row
        let padding = if (i + 1) % row_size == 0 {
            0
        } else {
            proof {
                lemma_not_last_column(i as int, row_size as int);
            }
            sizes[col] + 3
        };
        let padded = pad_right(buf[i].as_str(), padding);
        writer.append(padded.as_str());
        assert(items.take(i + 1).drop_last() =~= items.take(i as int));
        i = i + 1;
    }
    assert(items.take(i as int) =~= items);
    // Close the bindings
    writer.append("\n");
    print_indent(writer, &ctx.dec(1));
    writer.append(">");
    true
}


/// Appends an integer cell list (see `integer_cells_out`); `false` where it
/// cannot be printed.
fn print_integer_cells(writer: &mut String, node: &SyntaxNode, ctx: &Context) -> (ok: bool)
    ensures
        old(writer)@.is_prefix_of(final(writer)@),
        ok == integer_cells_out(*node, ctx@) is Some,
        ok ==> final(writer)@ == old(writer)@ + integer_cells_out(*node, ctx@).unwrap(),
{
    let is_reg = match ctx.identifier {
        Some(id) => text_is(id, "reg"),
        None => false,
    };
    let chunk_size: u32 = if is_reg {
        if ctx.address_cells > u32::MAX - ctx.size_cells {
            return false;
        }
        ctx.address_cells + ctx.size_cells
    } else {
        16
    };
    // Keymap bindings are a special snowflake
    if ctx.has_zephyr_syntax() {
        if node.children.len() == 0 || node.children[0].children.len() > 0 {
            return false;
        }
        return print_bindings(writer, node, ctx);
    }
    print_cell_list(writer, node, chunk_size, ctx)
}

/// Reading on from a text already written.
proof fn lemma_cat_assoc(a: Seq<char>, b: Seq<char>, c: Option<Seq<char>>)
    ensures
        cat(Some(a), cat(Some(b), c)) == cat(Some(a + b), c),
{
    if let Some(x) = c {
        assert(a + (b + x) =~= (a + b) + x);
    }
}

/// Appends the text printed for `node` (see `format_node`), whose previous and
/// next siblings are `prev` and `next`; `false` exactly where `format_node`
/// gives no text. That covers the inputs that have no formatted form, among
/// them a `reg` cell list under `#address-cells` and `#size-cells` that sum to 0
/// or past `u32::MAX`, a `}` at indentation 0, a cell-count property without a
/// value and a keymap that `keymap_ok` refuses: the call reports them by its
/// result instead of halting. Whatever the result, the text already in `writer`
/// stays in front.
pub fn traverse<'a, 'b>(
    writer: &mut String,
    unhandled: &mut Vec<UnhandledToken>,
    node: &'b SyntaxNode,
    prev: Option<&'b SyntaxNode>,
    next: Option<&'b SyntaxNode>,
    ctx: &Context<'a, 'b>,
) -> (ok: bool)
    ensures
        old(writer)@.is_prefix_of(final(writer)@),
        ok == format_node(*node, node_opt(prev), node_opt(next), ctx@) is Some,
        ok ==> final(writer)@ == old(writer)@ + format_node(
            *node,
            node_opt(prev),
            node_opt(next),
            ctx@,
        ).unwrap(),
        ok ==> token_views(final(unhandled)@) == token_views(old(unhandled)@) + unhandled_in(
            *node,
            ctx@.config.warn_on_unhandled_tokens,
        ),
    decreases *node, 1int, 0int,
{
    let kind = node.kind.as_str();
    let len = node.children.len();
    if text_is(kind, "file_version") {
        writer.append(node.text.as_str());
        writer.append("\n\n");
        true
    } else if text_is(kind, "comment") {
        print_comment(writer, node, prev, ctx);
        true
    } else if text_is(kind, "dtsi_include") {
        if len == 0 {
            return false;
        }
        print_dtsi_include(writer, node, next, ctx);
        true
    } else if text_is(kind, "preproc_include") {
        if len == 0 {
            return false;
        }
        print_preproc_include(writer, node, next, ctx);
        true
    } else if text_is(kind, "preproc_def") {
        if len == 0 {
            return false;
        }
        print_preproc_def(writer, node, next);
        true
    } else if text_is(kind, "preproc_function_def") {
        if len == 0 {
            return false;
        }
        print_preproc_function_def(writer, node, next);
        true
    } else if text_is(kind, "preproc_ifdef") {
        traverse_ifdef(writer, unhandled, node, next, ctx)
    } else if text_is(kind, "identifier") || text_is(kind, "integer_literal") || text_is(
        kind,
        "string_literal",
    ) || text_is(kind, "unit_address") {
        writer.append(node.text.as_str());
        true
    } else if text_is(kind, "node") || text_is(kind, "property") {
        // Node and Property are handled together due to shared handling of
        // identifiers and indentation of children.
        traverse_nested(writer, unhandled, node, next, ctx)
    } else if text_is(kind, "byte_string_literal") {
        print_byte_string(writer, node, ctx)
    } else if text_is(kind, "integer_cells") {
        print_integer_cells(writer, node, ctx)
    } else if text_is(kind, "@") {
        writer.append("@");
        true
    } else if text_is(kind, "{") {
        writer.append(" {\n");
        true
    } else if text_is(kind, ":") {
        writer.append(": ");
        true
    } else if text_is(kind, ";") {
        writer.append(";\n");
        true
    } else if text_is(kind, ",") {
        writer.append(", ");
        true
    } else if text_is(kind, "=") {
        writer.append(" = ");
        true
    } else if text_is(kind, "}") {
        if ctx.indent == 0 {
            return false;
        }
        print_indent(writer, &ctx.dec(1));
        writer.append("}");
        true
    } else {
        // Since we're unsure of this node just traverse its children
        traverse_fallback(writer, unhandled, node, ctx)
    }
}

/// Appends an `#ifdef` block (see `ifdef_out`).
fn traverse_ifdef<'a, 'b>(
    writer: &mut String,
    unhandled: &mut Vec<UnhandledToken>,
    node: &'b SyntaxNode,
    next: Option<&'b SyntaxNode>,
    ctx: &Context<'a, 'b>,
) -> (ok: bool)
    ensures
        old(writer)@.is_prefix_of(final(writer)@),
        ok == ifdef_out(*node, node_opt(next), ctx@) is Some,
        ok ==> final(writer)@ == old(writer)@ + ifdef_out(*node, node_opt(next), ctx@).unwrap(),
        ok ==> token_views(final(unhandled)@) == token_views(old(unhandled)@) + unhandled_children(
            *node,
            2,
            ctx@.config.warn_on_unhandled_tokens,
        ),
    decreases *node, 0int, node.children@.len() + 1,
{
    if node.children.len() == 0 {
        return false;
    }
    // #ifdef and its name
    print_ifdef_head(writer, node, ctx);
    // Body
    if !traverse_children(writer, unhandled, node, 2, ctx) {
        return false;
    }
    // Closing
    print_ifdef_tail(writer, next, ctx);
    proof {
        let body = format_children(*node, 2, ctx@).unwrap();
        lemma_cat_assoc(ifdef_head(*node, ctx@), body, Some(ifdef_tail(node_opt(next), ctx@)));
        assert(writer@ =~= old(writer)@ + (ifdef_head(*node, ctx@) + body + ifdef_tail(
            node_opt(next),
            ctx@,
        )));
    }
    true
}

/// Appends a node or property (see `nested_out`).
fn traverse_nested<'a, 'b>(
    writer: &mut String,
    unhandled: &mut Vec<UnhandledToken>,
    node: &'b SyntaxNode,
    next: Option<&'b SyntaxNode>,
    ctx: &Context<'a, 'b>,
) -> (ok: bool)
    ensures
        old(writer)@.is_prefix_of(final(writer)@),
        ok == nested_out(*node, node_opt(next), ctx@) is Some,
        ok ==> final(writer)@ == old(writer)@ + nested_out(*node, node_opt(next), ctx@).unwrap(),
        ok ==> token_views(final(unhandled)@) == token_views(old(unhandled)@) + unhandled_children(
            *node,
            0,
            ctx@.config.warn_on_unhandled_tokens,
        ),
    decreases *node, 0int, node.children@.len() + 1,
{
    // Check for any #address-cells or #size-cells properties in this node
    // before descending since they affect child parsing.
    let (address_cells, size_cells) = match parse_address_and_size_cells(node) {
        Some(cells) => cells,
        None => return false,
    };
    if node.children.len() == 0 || ctx.indent == usize::MAX {
        return false;
    }
    // A node will typically have children in a format of:
    // [<identifier>:] [&]<identifier> { [nodes and properties] }
    // Nodes are preceded by a label or name identifier that need to be
    // indented; the first child never has an earlier sibling.
    print_indent(writer, ctx);
    // Update the context before we traverse children. We always need to
    // indent once per level, and then if we found a more local
    // #address-cells or #size-cells value we want to carry it with us
    // because it takes effect for children of the node they are present in.
    let identifier = node.children[0].text.as_str();
    let address = match address_cells {
        Some(a) => a,
        None => ctx.address_cells,
    };
    let size = match size_cells {
        Some(s) => s,
        None => ctx.size_cells,
    };
    let inner = ctx.with_identifier(identifier).with_address_cells(address).with_size_cells(
        size,
    ).inc(1);
    // Update whether we've seen Zephyr-shaped identifiers.
    let inner = if text_is(identifier, "keymap") {
        inner.keymap()
    } else if text_is(identifier, "bindings") {
        inner.bindings()
    } else {
        inner
    };
    assert(inner@ == child_context(ctx@, node.children@[0].text@, address_cells, size_cells));
    if !traverse_children(writer, unhandled, node, 0, &inner) {
        return false;
    }
    let ghost body = writer@;
    // Place a newline before node siblings if they follow a property.
    if text_is(node.kind.as_str(), "property") {
        if let Some(x) = next {
            if text_is(x.kind.as_str(), "node") {
                writer.append("\n");
            }
        }
    }
    proof {
        let children = format_children(*node, 0, inner@).unwrap();
        let after = writer@.subrange(body.len() as int, writer@.len() as int);
        assert(writer@ =~= body + after);
        lemma_cat_assoc(indentation(ctx.indent as nat), children, Some(after));
        assert(writer@ =~= old(writer)@ + (indentation(ctx.indent as nat) + children + after));
    }
    true
}

/// Appends a node of any other kind (see `fallback_out`).
fn traverse_fallback<'a, 'b>(
    writer: &mut String,
    unhandled: &mut Vec<UnhandledToken>,
    node: &'b SyntaxNode,
    ctx: &Context<'a, 'b>,
) -> (ok: bool)
    ensures
        old(writer)@.is_prefix_of(final(writer)@),
        ok == fallback_out(*node, ctx@) is Some,
        ok ==> final(writer)@ == old(writer)@ + fallback_out(*node, ctx@).unwrap(),
        ok ==> token_views(final(unhandled)@) == token_views(old(unhandled)@) + (if ctx@.config.warn_on_unhandled_tokens {
            seq![(node.kind@, node.children@.len() as usize, node.text@)]
        } else {
            Seq::empty()
        }) + unhandled_children(*node, 0, ctx@.config.warn_on_unhandled_tokens),
    decreases *node, 0int, node.children@.len() + 1,
{
    let len = node.children.len();
    if ctx.config.warn_on_unhandled_tokens {
        unhandled.push(
            UnhandledToken {
                kind: node.kind.clone(),
                child_count: len,
                text: node.text.clone(),
            },
        );
    }
    let ghost own = token_views(unhandled@);
    assert(own =~= token_views(old(unhandled)@) + (if ctx@.config.warn_on_unhandled_tokens {
        seq![(node.kind@, node.children@.len() as usize, node.text@)]
    } else {
        Seq::empty()
    }));
    if len == 0 {
        assert(writer@ =~= writer@ + Seq::<char>::empty());
        return true;
    }
    if len >= 2 && ctx.indent == usize::MAX {
        return false;
    }
    let next_child = if len >= 2 {
        Some(&node.children[1])
    } else {
        None
    };
    if !traverse(writer, unhandled, &node.children[0], None, next_child, ctx) {
        return false;
    }
    if len >= 2 {
        let deeper = ctx.inc(1);
        if !traverse_children(writer, unhandled, node, 1, &deeper) {
            return false;
        }
        proof {
            let a = format_node(node.children@[0], None, next_of(*node, 0), ctx@).unwrap();
            let b = format_children(*node, 1, deeper@).unwrap();
            assert(writer@ =~= old(writer)@ + (a + b));
            let w = ctx@.config.warn_on_unhandled_tokens;
            assert(token_views(unhandled@) =~= own + (unhandled_in(node.children@[0], w)
                + unhandled_children(*node, 1, w)));
        }
    } else {
        proof {
            let a = format_node(node.children@[0], None, next_of(*node, 0), ctx@).unwrap();
            assert(format_children(*node, 1, ContextView { indent: ctx@.indent + 1, ..ctx@ })
                == Some(Seq::<char>::empty()));
            assert(a + Seq::<char>::empty() =~= a);
            let w = ctx@.config.warn_on_unhandled_tokens;
            assert(unhandled_children(*node, 1, w) == Seq::<(Seq<char>, usize, Seq<char>)>::empty());
            assert(token_views(unhandled@) =~= own + (unhandled_in(node.children@[0], w)
                + unhandled_children(*node, 1, w)));
        }
    }
    true
}

/// Appends the texts printed for the children of `parent` from the `from`-th
/// on, all under `ctx` (see `format_children`); `false` where one cannot be
/// printed.
pub fn traverse_children<'a, 'b>(
    writer: &mut String,
    unhandled: &mut Vec<UnhandledToken>,
    parent: &'b SyntaxNode,
    from: usize,
    ctx: &Context<'a, 'b>,
) -> (ok: bool)
    ensures
        old(writer)@.is_prefix_of(final(writer)@),
        ok == format_children(*parent, from as int, ctx@) is Some,
        ok ==> final(writer)@ == old(writer)@ + format_children(*parent, from as int, ctx@).unwrap(),
        ok ==> token_views(final(unhandled)@) == token_views(old(unhandled)@) + unhandled_children(
            *parent,
            from as int,
            ctx@.config.warn_on_unhandled_tokens,
        ),
    decreases *parent, 0int, if from < parent.children@.len() {
        parent.children@.len() - from
    } else {
        0
    },
{
    if from >= parent.children.len() {
        return true;
    }
    let prev = if from > 0 {
        Some(&parent.children[from - 1])
    } else {
        None
    };
    let next = if from + 1 < parent.children.len() {
        Some(&parent.children[from + 1])
    } else {
        None
    };
    if !traverse(writer, unhandled, &parent.children[from], prev, next, ctx) {
        return false;
    }
    if !traverse_children(writer, unhandled, parent, from + 1, ctx) {
        return false;
    }
    proof {
        let a = format_node(
            parent.children@[from as int],
            prev_of(*parent, from as int),
            next_of(*parent, from as int),
            ctx@,
        ).unwrap();
        let b = format_children(*parent, from + 1, ctx@).unwrap();
        assert(writer@ =~= old(writer)@ + (a + b));
    }
    true
}


/// The text that `r` holds, if any.
pub open spec fn string_opt(r: Option<String>) -> Option<Seq<char>> {
    match r {
        Some(s) => Some(s@),
        None => None,
    }
}

/// The formatted text of the file whose syntax tree is rooted at `root` (see
/// `format_document`); `None` where the tree cannot be printed.
pub fn print_tree(root: &SyntaxNode, config: &Config, unhandled: &mut Vec<UnhandledToken>) -> (r: Option<String>)
    ensures
        string_opt(r) == format_document(*root, config@),
        r is Some ==> token_views(final(unhandled)@) == token_views(old(unhandled)@)
            + unhandled_in_document(*root, config@),
{
    let ctx = Context {
        indent: 0,
        keymap: false,
        bindings: false,
        identifier: None,
        address_cells: ADDRESS_CELLS_DEFAULT,
        size_cells: SIZE_CELLS_DEFAULT,
        config,
    };
    assert(ctx@ == initial_context(config@));
    let mut writer = String::new();
    // The first node is the root document node, so we have to traverse all its
    // children with the same indentation level.
    let ok = if root.children.len() == 0 {
        traverse(&mut writer, unhandled, root, None, None, &ctx)
    } else {
        traverse_children(&mut writer, unhandled, root, 0, &ctx)
    };
    if ok {
        assert(writer@ =~= Seq::<char>::empty() + writer@);
        Some(writer)
    } else {
        None
    }
}

/// The formatted text of the Devicetree source `source`: the text printed for
/// its syntax tree (see `format_document`); `None` where that tree is
/// `usize::MAX` or more levels deep, or cannot be printed.
pub open spec fn formatted_source(source: Seq<char>, config: ConfigView) -> Option<Seq<char>> {
    if fits_depth(devicetree_syntax(source), usize::MAX as nat) {
        format_document(syntax_copy(source), config)
    } else {
        None
    }
}

/// Formats the Devicetree source `source`: parses it with the Devicetree
/// grammar and prints its syntax tree (see `formatted_source`), adding to
/// `unhandled` the nodes that have no rule.
pub fn print(source: &String, config: &Config, unhandled: &mut Vec<UnhandledToken>) -> (r: Option<String>)
    ensures
        string_opt(r) == formatted_source(source@, config@),
        r is Some ==> token_views(final(unhandled)@) == token_views(old(unhandled)@)
            + unhandled_in_document(syntax_copy(source@), config@),
{
    match parse(source.as_str()) {
        Some(tree) => {
            let r = print_tree(&tree, config, unhandled);
            proof {
                let m = devicetree_syntax(source@);
                let bytes = vstd::utf8::encode_utf8(source@);
                assert(copies(tree, m, bytes));
                let t = syntax_copy(source@);
                assert(copies(t, m, bytes));
                law_copies_agree(t, tree, m, bytes);
                law_printing_reads_only_contents(t, tree, config@);
            }
            r
        },
        None => None,
    }
}

} // verus!
