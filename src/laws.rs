use vstd::prelude::*;
use crate::link::underscored;
use crate::node::{ListItem, Node};
use crate::render::{
    lemma_rendered_seq_stopped, list_postfix, list_prefix, rendered, rendered_items, rendered_seq,
};

verus! {

broadcast use {
    vstd::seq::group_seq_axioms,
    vstd::std_specs::vec::group_vec_axioms,
};

/// A node that holds only text, redirects, and links, headings and lists made
/// of such nodes, at every depth.
pub open spec fn fully_supported(n: Node) -> bool
    decreases n,
{
    match n {
        Node::Heading { level, nodes } => all_supported(nodes@),
        Node::Link { target, text } => all_supported(text@),
        Node::Redirect { target } => true,
        Node::UnorderedList { items } => all_items_supported(items@),
        Node::Text { value } => true,
        _ => false,
    }
}

/// Every node of `s` is fully supported.
pub open spec fn all_supported(s: Seq<Node>) -> bool
    decreases s,
{
    if s.len() == 0 {
        true
    } else {
        all_supported(s.drop_last()) && fully_supported(s.last())
    }
}

/// Every node of every item is fully supported.
pub open spec fn all_items_supported(items: Seq<ListItem>) -> bool
    decreases items,
{
    if items.len() == 0 {
        true
    } else {
        all_items_supported(items.drop_last()) && all_supported(items.last().nodes@)
    }
}

/// The rendering of each node of `s` on its own, between `pre` and `post`.
pub open spec fn pieces(s: Seq<Node>, pre: Seq<char>, post: Seq<char>) -> Seq<Seq<char>> {
    s.map_values(|n: Node| pre + rendered(n).0 + post)
}

/// A fully supported node renders with outcome `true`.
pub proof fn lemma_supported_node_renders(n: Node)
    requires
        fully_supported(n),
    ensures
        rendered(n).1,
    decreases n,
{
    match n {
        Node::Heading { level, nodes } => lemma_supported_seq_renders(nodes@, seq![], seq![]),
        Node::Link { target, text } => lemma_supported_seq_renders(text@, seq![], seq![]),
        Node::UnorderedList { items } => lemma_supported_items_render(items@),
        _ => {},
    }
}

/// A sequence of fully supported nodes renders with outcome `true`.
pub proof fn lemma_supported_seq_renders(s: Seq<Node>, pre: Seq<char>, post: Seq<char>)
    requires
        all_supported(s),
    ensures
        rendered_seq(s, pre, post).1,
    decreases s,
{
    if s.len() > 0 {
        lemma_supported_seq_renders(s.drop_last(), pre, post);
        lemma_supported_node_renders(s.last());
    }
}

/// The items of a list of fully supported nodes render with outcome `true`.
pub proof fn lemma_supported_items_render(items: Seq<ListItem>)
    requires
        all_items_supported(items),
    ensures
        rendered_items(items).1,
    decreases items,
{
    if items.len() > 0 {
        lemma_supported_items_render(items.drop_last());
        lemma_supported_seq_renders(items.last().nodes@, list_prefix(), list_postfix());
    }
}

/// When every node of `s` renders with outcome `true`, so does `s`, and what
/// it writes is the concatenation of the nodes' own renderings, each between
/// `pre` and `post`.
pub proof fn lemma_all_true_concatenates(s: Seq<Node>, pre: Seq<char>, post: Seq<char>)
    requires
        forall|i: int| 0 <= i < s.len() ==> #[trigger] rendered(s[i]).1,
    ensures
        rendered_seq(s, pre, post).1,
        rendered_seq(s, pre, post).0 == pieces(s, pre, post).flatten(),
    decreases s.len(),
{
    if s.len() > 0 {
        let p = s.drop_last();
        assert forall|i: int| 0 <= i < p.len() implies #[trigger] rendered(p[i]).1 by {
            assert(p[i] == s[i]);
        }
        lemma_all_true_concatenates(p, pre, post);
        assert(pieces(s, pre, post).drop_last() =~= pieces(p, pre, post));
        pieces(s, pre, post).lemma_flatten_and_flatten_alt_are_equivalent();
        pieces(p, pre, post).lemma_flatten_and_flatten_alt_are_equivalent();
        assert(rendered(s[s.len() - 1]).1);
    } else {
        assert(pieces(s, pre, post) =~= Seq::<Seq<char>>::empty());
    }
}

/// A sequence of fully supported nodes renders with outcome `true`, and what
/// it writes is exactly the concatenation of each node's own rendering, each
/// between `pre` and `post`.
pub proof fn law_supported_sequence_renders_whole(s: Seq<Node>, pre: Seq<char>, post: Seq<char>)
    requires
        forall|i: int| 0 <= i < s.len() ==> fully_supported(#[trigger] s[i]),
    ensures
        rendered_seq(s, pre, post).1,
        rendered_seq(s, pre, post).0 == pieces(s, pre, post).flatten(),
{
    assert forall|i: int| 0 <= i < s.len() implies #[trigger] rendered(s[i]).1 by {
        lemma_supported_node_renders(s[i]);
    }
    lemma_all_true_concatenates(s, pre, post);
}

/// When the first node of `s` whose outcome is `false` stands at index `k`,
/// rendering `s` writes the whole rendering of the nodes before `k`, then
/// `pre`, what node `k` wrote and `post`, renders nothing after `k`, and
/// returns `false`.
pub proof fn law_first_unsupported_stops(s: Seq<Node>, pre: Seq<char>, post: Seq<char>, k: int)
    requires
        0 <= k < s.len(),
        forall|i: int| 0 <= i < k ==> #[trigger] rendered(s[i]).1,
        !rendered(s[k]).1,
    ensures
        !rendered_seq(s, pre, post).1,
        rendered_seq(s, pre, post).0 == pieces(s.take(k), pre, post).flatten() + pre
            + rendered(s[k]).0 + post,
        rendered_seq(s, pre, post) == rendered_seq(s.take(k + 1), pre, post),
{
    let head = s.take(k);
    assert forall|i: int| 0 <= i < head.len() implies #[trigger] rendered(head[i]).1 by {
        assert(head[i] == s[i]);
    }
    lemma_all_true_concatenates(head, pre, post);
    assert(s.take(k + 1).drop_last() =~= head);
    lemma_rendered_seq_stopped(s, pre, post, k + 1);
}

/// Resolving a link target twice gives what resolving it once gives.
pub proof fn law_resolve_idempotent(s: Seq<char>)
    ensures
        underscored(underscored(s)) == underscored(s),
{
    assert(underscored(underscored(s)) =~= underscored(s));
}

} // verus!
