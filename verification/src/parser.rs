use vstd::prelude::*;

use crate::syntax::{same_tree, texts_from, within_depth, SyntaxNode};
use vstd::string::StringSliceAdditionalSpecFns;

verus! {

#[verifier::external_type_specification]
#[verifier::external_body]
pub struct ExTree(tree_sitter::Tree);

#[verifier::external_type_specification]
#[verifier::external_body]
pub struct ExNode<'tree>(tree_sitter::Node<'tree>);

/// What the printer reads of one node: its kind, whether it is named, its first
/// and past-the-end byte offsets, and its number of children.
pub type NodeFacts = (Seq<char>, bool, usize, usize, u32);

/// The number of children that the contents `m` of a node record for it.
pub open spec fn child_count_of(m: Map<Seq<u32>, NodeFacts>) -> u32 {
    m[Seq::empty()].4
}

/// The part of the contents `m` of a node that lies under its `i`-th child, as
/// seen from that child.
pub open spec fn child_contents(m: Map<Seq<u32>, NodeFacts>, i: u32) -> Map<Seq<u32>, NodeFacts> {
    Map::new(|p: Seq<u32>| true, |p: Seq<u32>| m[seq![i] + p])
}

/// The subtree whose contents are `m` has at most `d` levels: its root and its
/// descendants down to `d - 1` steps below it.
pub open spec fn fits_depth(m: Map<Seq<u32>, NodeFacts>, d: nat) -> bool
    decreases d,
{
    if d == 0 {
        false
    } else {
        forall|i: u32|
            i < m[Seq::empty()].4 ==> fits_depth(#[trigger] child_contents(m, i), (d - 1) as nat)
    }
}

/// `t` is the copy of the node whose contents are `m`, each text being the
/// bytes of `source` that the node spans (empty where they are no text).
pub open spec fn copies(t: SyntaxNode, m: Map<Seq<u32>, NodeFacts>, source: Seq<u8>) -> bool
    decreases t,
{
    &&& t.kind@ == m[Seq::empty()].0
    &&& t.named == m[Seq::empty()].1
    &&& vstd::utf8::encode_utf8(t.text@) == source_slice_bytes(
        source,
        m[Seq::empty()].2 as int,
        m[Seq::empty()].3 as int,
    )
    &&& t.children@.len() == m[Seq::empty()].4
    &&& forall|i: int|
        0 <= i < t.children@.len() ==> copies(
            #[trigger] t.children@[i],
            child_contents(m, i as u32),
            source,
        )
}

/// A copy is determined by what it copies: two copies of the same node
/// contents, from the same source, hold the same kinds, texts and flags in the
/// same shape.
pub proof fn law_copies_agree(a: SyntaxNode, b: SyntaxNode, m: Map<Seq<u32>, NodeFacts>, source: Seq<u8>)
    requires
        copies(a, m, source),
        copies(b, m, source),
    ensures
        same_tree(a, b),
    decreases a,
{
    vstd::utf8::encode_utf8_decode_utf8(a.text@);
    vstd::utf8::encode_utf8_decode_utf8(b.text@);
    assert(a.text@ == b.text@);
    assert forall|i: int| 0 <= i < a.children@.len() implies same_tree(
        #[trigger] a.children@[i],
        b.children@[i],
    ) by {
        law_copies_agree(a.children@[i], b.children@[i], child_contents(m, i as u32), source);
    }
}

/// A copy of the syntax tree that tree-sitter's Devicetree grammar gives for
/// `source` (`law_copies_agree`: all copies hold the same kinds, texts and
/// flags in the same shape).
pub open spec fn syntax_copy(source: Seq<char>) -> SyntaxNode {
    choose|t: SyntaxNode| copies(t, devicetree_syntax(source), vstd::utf8::encode_utf8(source))
}

/// What a syntax tree node holds, one entry per node of the subtree that it
/// roots: the path of child indices from it to that node, mapped to that node's
/// kind, whether it is named, its first and past-the-end byte offsets, and its
/// number of children. (Paths that lead to no node map to values of no meaning.)
pub uninterp spec fn node_contents(node: tree_sitter::Node) -> Map<Seq<u32>, NodeFacts>;

/// What a syntax tree holds: the contents of its root node.
pub uninterp spec fn tree_contents(tree: tree_sitter::Tree) -> Map<Seq<u32>, NodeFacts>;

/// The syntax tree that tree-sitter's Devicetree grammar gives for `source`.
pub uninterp spec fn devicetree_syntax(source: Seq<char>) -> Map<Seq<u32>, NodeFacts>;

/// Parses `source` with a new `tree_sitter::Parser` set to the Devicetree
/// grammar (`Parser::new`, `Parser::set_language` with
/// `tree_sitter_devicetree::LANGUAGE`, `Parser::parse` with no earlier tree).
/// Claimed: a tree comes back, and it is the one that the grammar gives for
/// `source`. `set_language` accepts this grammar (its ABI version lies in the
/// range that this tree-sitter accepts), and `parse` gives no tree only where no
/// language is set.
#[verifier::external_body]
fn parse_devicetree(source: &str) -> (r: Option<tree_sitter::Tree>)
    ensures
        r is Some,
        tree_contents(r.unwrap()) == devicetree_syntax(source@),
{
    let mut parser = tree_sitter::Parser::new();
    parser.set_language(&tree_sitter_devicetree::LANGUAGE.into()).ok()?;
    parser.parse(source, None)
}

/// Calls `tree_sitter::Tree::root_node`; claimed: the root holds what the tree
/// holds.
#[verifier::external_body]
fn tree_root<'tree>(tree: &'tree tree_sitter::Tree) -> (r: tree_sitter::Node<'tree>)
    ensures
        node_contents(r) == tree_contents(*tree),
{
    tree.root_node()
}

/// Calls `tree_sitter::Node::kind`, copying the name into a `String`; claimed:
/// it is the kind that the node's contents record for it.
#[verifier::external_body]
fn node_kind(node: &tree_sitter::Node) -> (r: String)
    ensures
        r@ == node_contents(*node)[Seq::empty()].0,
{
    node.kind().to_string()
}

/// Calls `tree_sitter::Node::is_named`; claimed: as the node's contents record.
#[verifier::external_body]
fn node_is_named(node: &tree_sitter::Node) -> (r: bool)
    ensures
        r == node_contents(*node)[Seq::empty()].1,
{
    node.is_named()
}

/// Calls `tree_sitter::Node::start_byte`; claimed: as the node's contents record.
#[verifier::external_body]
fn node_start_byte(node: &tree_sitter::Node) -> (r: usize)
    ensures
        r == node_contents(*node)[Seq::empty()].2,
{
    node.start_byte()
}

/// Calls `tree_sitter::Node::end_byte`; claimed: as the node's contents record.
#[verifier::external_body]
fn node_end_byte(node: &tree_sitter::Node) -> (r: usize)
    ensures
        r == node_contents(*node)[Seq::empty()].3,
{
    node.end_byte()
}

/// Calls `tree_sitter::Node::child_count`; claimed: as the node's contents record.
#[verifier::external_body]
fn node_child_count(node: &tree_sitter::Node) -> (r: u32)
    ensures
        r == child_count_of(node_contents(*node)),
{
    node.child_count()
}

/// Calls `tree_sitter::Node::child`; claimed: below the child count it gives the
/// `i`-th child, which holds the part of the node's contents under index `i`;
/// from the child count on it gives nothing.
#[verifier::external_body]
fn node_child<'tree>(node: &tree_sitter::Node<'tree>, i: u32) -> (r: Option<tree_sitter::Node<'tree>>)
    ensures
        i < child_count_of(node_contents(*node)) ==> r is Some && node_contents(r.unwrap())
            == child_contents(node_contents(*node), i),
        i >= child_count_of(node_contents(*node)) ==> r is None,
{
    node.child(i)
}

/// The bytes `start..end` of `source` as a string: empty where that range does
/// not lie within `source` or does not start and end at character boundaries.
pub open spec fn source_slice_bytes(source: Seq<u8>, start: int, end: int) -> Seq<u8> {
    if 0 <= start <= end && vstd::utf8::is_char_boundary(source, start)
        && vstd::utf8::is_char_boundary(source, end) {
        source.subrange(start, end)
    } else {
        Seq::empty()
    }
}

/// The text of `source` between the byte offsets `start` and `end`, or the empty
/// string where that range is no text of `source`.
pub fn source_slice(source: &str, start: usize, end: usize) -> (r: String)
    ensures
        vstd::utf8::encode_utf8(r@) == source_slice_bytes(source.spec_bytes(), start as int, end as int),
        exists|a: int, b: int|
            0 <= a <= b <= source.spec_bytes().len() && vstd::utf8::encode_utf8(r@)
                == source.spec_bytes().subrange(a, b),
{
    if start <= end && source.is_char_boundary(start)
        && source.is_char_boundary(end) {
        let (head, _) = source.split_at(end);
        proof {
            let bytes = source.spec_bytes();
            vstd::utf8::encode_utf8_valid_utf8(source@);
            vstd::utf8::valid_utf8_split(bytes, end as int);
            let prefix = head.spec_bytes();
            if start < end {
                vstd::utf8::is_char_boundary_iff_not_is_continuation_byte(bytes, start as int);
                vstd::utf8::is_char_boundary_iff_not_is_continuation_byte(prefix, start as int);
            } else {
                vstd::utf8::is_char_boundary_start_end_of_seq(prefix);
            }
        }
        let (_, mid) = head.split_at(start);
        let r = mid.to_owned();
        assert(mid.spec_bytes() =~= source.spec_bytes().subrange(start as int, end as int));
        assert(end <= source.spec_bytes().len());
        r
    } else {
        let r = String::new();
        assert(vstd::utf8::encode_utf8(r@) =~= source.spec_bytes().subrange(0, 0));
        r
    }
}

/// Copies the subtree of `node` into a `SyntaxNode`, with each node's text taken
/// from `source`. `budget` bounds the depth of the copy: `None` exactly where the
/// subtree is deeper than that.
fn convert_node(node: &tree_sitter::Node, source: &str, budget: usize) -> (r: Option<SyntaxNode>)
    ensures
        r is Some <==> fits_depth(node_contents(*node), budget as nat),
        r matches Some(t) ==> copies(t, node_contents(*node), source.spec_bytes()),
        r matches Some(t) ==> texts_from(t, source.spec_bytes()),
        r matches Some(t) ==> within_depth(t, budget as nat),
        budget == 0 ==> r is None,
    decreases budget,
{
    if budget == 0 {
        return None;
    }
    let ghost m = node_contents(*node);
    let kind = node_kind(node);
    let named = node_is_named(node);
    let text = source_slice(source, node_start_byte(node), node_end_byte(node));
    let count = node_child_count(node);
    let mut children: Vec<SyntaxNode> = Vec::new();
    let mut i: u32 = 0;
    while i < count
        invariant
            budget > 0,
            m == node_contents(*node),
            count == m[Seq::empty()].4,
            i <= count,
            children@.len() == i,
            forall|j: int| 0 <= j < children@.len() ==> texts_from(#[trigger] children@[j], source.spec_bytes()),
            forall|j: int| 0 <= j < children@.len() ==> within_depth(#[trigger] children@[j], (budget - 1) as nat),
            forall|j: int| 0 <= j < children@.len() ==> copies(#[trigger] children@[j], child_contents(m, j as u32), source.spec_bytes()),
            forall|j: u32| j < i ==> fits_depth(#[trigger] child_contents(m, j), (budget - 1) as nat),
        decreases count - i,
    {
        match node_child(node, i) {
            Some(child) => match convert_node(&child, source, budget - 1) {
                Some(c) => children.push(c),
                None => {
                    assert(!fits_depth(child_contents(m, i), (budget - 1) as nat));
                    return None;
                },
            },
            None => {
                assert(false);
                return None;
            },
        }
        i = i + 1;
    }
    let t = SyntaxNode { kind, text, named, children };
    assert(fits_depth(m, budget as nat));
    Some(t)
}

/// Parses the Devicetree source `source` into its syntax tree: the copy of the
/// tree that the Devicetree grammar gives for it, each node's text taken from
/// `source`. `None` exactly where that tree is `usize::MAX` or more levels deep.
pub fn parse(source: &str) -> (r: Option<SyntaxNode>)
    ensures
        r is Some <==> fits_depth(devicetree_syntax(source@), usize::MAX as nat),
        r matches Some(t) ==> copies(t, devicetree_syntax(source@), source.spec_bytes()),
        r matches Some(t) ==> texts_from(t, source.spec_bytes()),
        r matches Some(t) ==> same_tree(t, syntax_copy(source@)),
{
    let tree = match parse_devicetree(source) {
        Some(tree) => tree,
        None => return None,
    };
    let root = tree_root(&tree);
    let r = convert_node(&root, source, usize::MAX);
    proof {
        if r is Some {
            let t = r.unwrap();
            let m = devicetree_syntax(source@);
            let bytes = vstd::utf8::encode_utf8(source@);
            assert(copies(t, m, bytes));
            law_copies_agree(t, syntax_copy(source@), m, bytes);
        }
    }
    r
}

} // verus!
