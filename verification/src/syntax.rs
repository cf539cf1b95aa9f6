use vstd::prelude::*;

verus! {

/// A node of a Devicetree syntax tree, as the printer reads it.
///
/// `kind` is the grammar's name for the node (such as `node`, `property` or `;`),
/// `text` the source text that the node spans, and `named` tells named grammar
/// rules apart from anonymous tokens. `children` are all children in source
/// order, anonymous tokens and comments included.
#[derive(Debug)]
pub struct SyntaxNode {
    pub kind: String,
    pub text: String,
    pub named: bool,
    pub children: Vec<SyntaxNode>,
}

/// Every text in the tree rooted at `n` is a run of the bytes `source`.
pub open spec fn texts_from(n: SyntaxNode, source: Seq<u8>) -> bool
    decreases n,
{
    &&& exists|a: int, b: int|
        0 <= a <= b <= source.len() && vstd::utf8::encode_utf8(n.text@) == source.subrange(a, b)
    &&& forall|i: int|
        0 <= i < n.children@.len() ==> #[trigger] texts_from(n.children@[i], source)
}

/// The tree rooted at `n` has at most `d` levels: `n` itself and its
/// descendants down to `d - 1` steps below it.
pub open spec fn within_depth(n: SyntaxNode, d: nat) -> bool
    decreases n,
{
    &&& d >= 1
    &&& forall|i: int|
        0 <= i < n.children@.len() ==> #[trigger] within_depth(n.children@[i], (d - 1) as nat)
}

/// `a` and `b` hold the same kinds, texts and flags, in the same shape.
pub open spec fn same_tree(a: SyntaxNode, b: SyntaxNode) -> bool
    decreases a,
{
    &&& a.kind@ == b.kind@
    &&& a.text@ == b.text@
    &&& a.named == b.named
    &&& a.children@.len() == b.children@.len()
    &&& forall|i: int|
        0 <= i < a.children@.len() ==> same_tree(#[trigger] a.children@[i], b.children@[i])
}

/// `a` and `b` are the same nodes, each pair as `same_tree` says.
pub open spec fn same_seq(a: Seq<SyntaxNode>, b: Seq<SyntaxNode>) -> bool {
    &&& a.len() == b.len()
    &&& forall|i: int| 0 <= i < a.len() ==> same_tree(#[trigger] a[i], b[i])
}

/// `a` and `b` are both absent, or both present and the same as `same_tree`
/// says.
pub open spec fn same_opt(a: Option<SyntaxNode>, b: Option<SyntaxNode>) -> bool {
    match (a, b) {
        (Some(x), Some(y)) => same_tree(x, y),
        (None, None) => true,
        _ => false,
    }
}

} // verus!
