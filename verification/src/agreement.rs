//! Printing reads a syntax tree only through its kinds, texts, flags and shape:
//! two trees that agree on those (`same_tree`) print the same text and report
//! the same nodes.
use vstd::prelude::*;

use crate::config::ConfigView;
use crate::context::ContextView;
use crate::format::{
    binding_tokens, cells_of, cells_value, child_context, first_close, format_children,
    format_document, format_node, named_of, next_of, nth_child, nth_named, prev_of,
    unhandled_children, unhandled_in, unhandled_in_document,
};
use crate::syntax::{same_opt, same_seq, same_tree, SyntaxNode};

verus! {

/// The children of two agreeing nodes agree pairwise.
proof fn lemma_children(a: SyntaxNode, b: SyntaxNode)
    requires
        same_tree(a, b),
    ensures
        same_seq(a.children@, b.children@),
{
}

/// Dropping the last of two agreeing runs of nodes leaves agreeing runs.
proof fn lemma_drop_last(a: Seq<SyntaxNode>, b: Seq<SyntaxNode>)
    requires
        same_seq(a, b),
        a.len() > 0,
    ensures
        same_seq(a.drop_last(), b.drop_last()),
        same_tree(a.last(), b.last()),
{
    assert forall|i: int| 0 <= i < a.len() - 1 implies same_tree(
        #[trigger] a.drop_last()[i],
        b.drop_last()[i],
    ) by {
        assert(same_tree(a[i], b[i]));
    }
    assert(same_tree(a[a.len() - 1], b[b.len() - 1]));
}

/// The named children among agreeing runs agree.
proof fn lemma_named_of(a: Seq<SyntaxNode>, b: Seq<SyntaxNode>)
    requires
        same_seq(a, b),
    ensures
        same_seq(named_of(a), named_of(b)),
    decreases a.len(),
{
    if a.len() > 0 {
        lemma_drop_last(a, b);
        lemma_named_of(a.drop_last(), b.drop_last());
        let na = named_of(a);
        let nb = named_of(b);
        let ma = named_of(a.drop_last());
        let mb = named_of(b.drop_last());
        if a.last().named {
            assert forall|i: int| 0 <= i < na.len() implies same_tree(#[trigger] na[i], nb[i]) by {
                if i < ma.len() {
                    assert(same_tree(ma[i], mb[i]));
                }
            }
        } else {
            assert(na == ma && nb == mb);
        }
    }
}

/// The `i`-th named children of agreeing nodes agree.
proof fn lemma_nth_named(a: SyntaxNode, b: SyntaxNode, i: int)
    requires
        same_tree(a, b),
    ensures
        same_opt(nth_named(a, i), nth_named(b, i)),
{
    lemma_children(a, b);
    lemma_named_of(a.children@, b.children@);
    if 0 <= i < named_of(a.children@).len() {
        assert(same_tree(named_of(a.children@)[i], named_of(b.children@)[i]));
    }
}

/// Agreeing properties declare the same cell count.
proof fn lemma_cells_value(a: SyntaxNode, b: SyntaxNode)
    requires
        same_tree(a, b),
    ensures
        cells_value(a) == cells_value(b),
{
    lemma_nth_named(a, b, 1);
    if let (Some(va), Some(vb)) = (nth_named(a, 1), nth_named(b, 1)) {
        lemma_nth_named(va, vb, 0);
    }
}

/// Agreeing runs of nodes declare the same cell counts.
proof fn lemma_cells_of(a: Seq<SyntaxNode>, b: Seq<SyntaxNode>)
    requires
        same_seq(a, b),
    ensures
        cells_of(a) == cells_of(b),
    decreases a.len(),
{
    if a.len() > 0 {
        lemma_drop_last(a, b);
        lemma_cells_of(a.drop_last(), b.drop_last());
        lemma_nth_named(a.last(), b.last(), 0);
        lemma_cells_value(a.last(), b.last());
    }
}

/// The `k`-th children (or last children) of agreeing nodes with children agree.
proof fn lemma_nth_child(a: SyntaxNode, b: SyntaxNode, k: int)
    requires
        same_tree(a, b),
        a.children@.len() > 0,
        0 <= k,
    ensures
        same_tree(nth_child(a, k), nth_child(b, k)),
{
    lemma_children(a, b);
    if k < a.children@.len() {
        assert(same_tree(a.children@[k], b.children@[k]));
    } else {
        assert(same_tree(a.children@[a.children@.len() - 1], b.children@[b.children@.len() - 1]));
    }
}

/// The siblings around the `i`-th children of agreeing nodes agree.
proof fn lemma_prev_next(a: SyntaxNode, b: SyntaxNode, i: int)
    requires
        same_tree(a, b),
    ensures
        same_opt(prev_of(a, i), prev_of(b, i)),
        same_opt(next_of(a, i), next_of(b, i)),
{
    lemma_children(a, b);
    if 0 < i <= a.children@.len() {
        assert(same_tree(a.children@[i - 1], b.children@[i - 1]));
    }
    if 0 <= i && i + 1 < a.children@.len() {
        assert(same_tree(a.children@[i + 1], b.children@[i + 1]));
    }
}

/// The first `>` from `i` on lies at the same place in agreeing runs, within them.
proof fn lemma_first_close(a: Seq<SyntaxNode>, b: Seq<SyntaxNode>, i: int)
    requires
        same_seq(a, b),
        0 <= i,
    ensures
        first_close(a, i) == first_close(b, i),
        first_close(a, i) <= a.len(),
        i <= a.len() ==> first_close(a, i) >= i,
    decreases a.len() - i,
{
    if i < a.len() {
        assert(same_tree(a[i], b[i]));
        lemma_first_close(a, b, i + 1);
    }
}

/// Agreeing keymap cell lists with children hold the same binding tokens.
proof fn lemma_binding_tokens(a: SyntaxNode, b: SyntaxNode)
    requires
        same_tree(a, b),
        a.children@.len() > 0,
    ensures
        binding_tokens(a) == binding_tokens(b),
{
    lemma_children(a, b);
    lemma_first_close(a.children@, b.children@, 1);
    let end = first_close(a.children@, 1);
    assert forall|k: int| 1 <= k < end implies (#[trigger] a.children@[k]).text@
        == b.children@[k].text@ by {
        assert(same_tree(a.children@[k], b.children@[k]));
    }
    assert forall|j: int| 0 <= j < binding_tokens(a).len() implies #[trigger] binding_tokens(a)[j]
        == binding_tokens(b)[j] by {
        assert(a.children@[j + 1].text@ == b.children@[j + 1].text@);
    }
    assert(binding_tokens(a) =~= binding_tokens(b));
}

/// Agreeing nodes print the same text, whatever their agreeing siblings.
proof fn lemma_format_node(
    a: SyntaxNode,
    b: SyntaxNode,
    pa: Option<SyntaxNode>,
    pb: Option<SyntaxNode>,
    na: Option<SyntaxNode>,
    nb: Option<SyntaxNode>,
    ctx: ContextView,
)
    requires
        same_tree(a, b),
        same_opt(pa, pb),
        same_opt(na, nb),
    ensures
        format_node(a, pa, na, ctx) == format_node(b, pb, nb, ctx),
    decreases a, 1int, 0int,
{
    lemma_children(a, b);
    let len = a.children@.len();
    if len > 0 {
        lemma_nth_child(a, b, 0);
        lemma_nth_child(a, b, 1);
        lemma_nth_child(a, b, 2);
        lemma_nth_child(a, b, 3);
        assert(same_tree(a.children@[0], b.children@[0]));
        lemma_format_children(a, b, 2, ctx);
        lemma_prev_next(a, b, 0);
        lemma_format_node(
            a.children@[0],
            b.children@[0],
            None,
            None,
            next_of(a, 0),
            next_of(b, 0),
            ctx,
        );
        lemma_format_children(a, b, 1, ContextView { indent: ctx.indent + 1, ..ctx });
        lemma_cells_of(a.children@, b.children@);
        if let Some((address, size)) = cells_of(a.children@) {
            let inner = child_context(ctx, a.children@[0].text@, address, size);
            lemma_format_children(a, b, 0, inner);
        }
        lemma_named_of(a.children@, b.children@);
        assert(named_of(a.children@).map_values(|c: SyntaxNode| c.text@) =~= named_of(
            b.children@,
        ).map_values(|c: SyntaxNode| c.text@)) by {
            assert forall|i: int| 0 <= i < named_of(a.children@).len() implies named_of(
                a.children@,
            )[i].text@ == named_of(b.children@)[i].text@ by {
                assert(same_tree(named_of(a.children@)[i], named_of(b.children@)[i]));
            }
        }
        lemma_binding_tokens(a, b);
    }
}

/// Agreeing nodes print the same text for their children from the `i`-th on.
proof fn lemma_format_children(a: SyntaxNode, b: SyntaxNode, i: int, ctx: ContextView)
    requires
        same_tree(a, b),
    ensures
        format_children(a, i, ctx) == format_children(b, i, ctx),
    decreases a, 0int, if i < a.children@.len() {
        a.children@.len() - i
    } else {
        0
    },
{
    lemma_children(a, b);
    if 0 <= i < a.children@.len() {
        assert(same_tree(a.children@[i], b.children@[i]));
        lemma_prev_next(a, b, i);
        lemma_format_node(
            a.children@[i],
            b.children@[i],
            prev_of(a, i),
            prev_of(b, i),
            next_of(a, i),
            next_of(b, i),
            ctx,
        );
        lemma_format_children(a, b, i + 1, ctx);
    }
}

/// Agreeing nodes report the same nodes without a rule.
proof fn lemma_unhandled_in(a: SyntaxNode, b: SyntaxNode, warn: bool)
    requires
        same_tree(a, b),
    ensures
        unhandled_in(a, warn) == unhandled_in(b, warn),
    decreases a, 1int, 0int,
{
    lemma_unhandled_children(a, b, 0, warn);
    lemma_unhandled_children(a, b, 2, warn);
}

/// Agreeing nodes report the same nodes without a rule among their children
/// from the `i`-th on.
proof fn lemma_unhandled_children(a: SyntaxNode, b: SyntaxNode, i: int, warn: bool)
    requires
        same_tree(a, b),
    ensures
        unhandled_children(a, i, warn) == unhandled_children(b, i, warn),
    decreases a, 0int, if i < a.children@.len() {
        a.children@.len() - i
    } else {
        0
    },
{
    lemma_children(a, b);
    if 0 <= i < a.children@.len() {
        assert(same_tree(a.children@[i], b.children@[i]));
        lemma_unhandled_in(a.children@[i], b.children@[i], warn);
        lemma_unhandled_children(a, b, i + 1, warn);
    }
}

/// Printing reads a tree only through its kinds, texts, flags and shape: two
/// trees that agree on those print the same text of the file, or both cannot
/// be printed, and meet the same nodes without a rule.
pub proof fn law_printing_reads_only_contents(a: SyntaxNode, b: SyntaxNode, config: ConfigView)
    requires
        same_tree(a, b),
    ensures
        format_document(a, config) == format_document(b, config),
        unhandled_in_document(a, config) == unhandled_in_document(b, config),
{
    lemma_format_node(a, b, None, None, None, None, crate::format::initial_context(config));
    lemma_format_children(a, b, 0, crate::format::initial_context(config));
    lemma_unhandled_in(a, b, config.warn_on_unhandled_tokens);
    lemma_unhandled_children(a, b, 0, config.warn_on_unhandled_tokens);
}

} // verus!
