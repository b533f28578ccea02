use vstd::prelude::*;
use crate::link::{link_close, link_text, write_link, write_link_close};
use crate::node::{ListItem, Node};

verus! {

broadcast use {
    vstd::seq::group_seq_axioms,
    vstd::std_specs::vec::group_vec_axioms,
    vstd::std_specs::vec::axiom_vec_index_decreases,
};

/// The marker that opens a heading: one `#` per level, then a space.
pub open spec fn heading_marker(level: u8) -> Seq<char> {
    hashes(level as nat) + seq![' ']
}

/// `n` characters `#`.
pub open spec fn hashes(n: nat) -> Seq<char> {
    Seq::new(n, |i: int| '#')
}

/// What is written before each node of a list: `- `.
pub open spec fn list_prefix() -> Seq<char> {
    seq!['-', ' ']
}

/// What is written after each node of a list: a line break.
pub open spec fn list_postfix() -> Seq<char> {
    seq!['\n']
}

/// The title line of a document: `# `, the title, then a blank line.
pub open spec fn title_line(title: Seq<char>) -> Seq<char> {
    seq!['#', ' '] + title + seq!['\n', '\n']
}

/// What rendering `n` writes, and whether every node in it was supported.
/// Output written before an unsupported node is found stays written: a heading
/// keeps its marker and a list the `- ` of the failing node, but neither then
/// writes its closing line break. A link is closed in either case.
pub open spec fn rendered(n: Node) -> (Seq<char>, bool)
    decreases n,
{
    match n {
        Node::Heading { level, nodes } => {
            let (t, ok) = rendered_seq(nodes@, seq![], seq![]);
            if ok {
                (heading_marker(level) + t + seq!['\n', '\n'], true)
            } else {
                (heading_marker(level) + t, false)
            }
        },
        Node::Link { target, text } => {
            let (t, ok) = rendered_seq(text@, seq![], seq![]);
            (seq!['['] + t + link_close(target@), ok)
        },
        Node::Redirect { target } => (link_text(target@, target@), true),
        Node::UnorderedList { items } => {
            let (t, ok) = rendered_items(items@);
            if ok {
                (t + seq!['\n'], true)
            } else {
                (t, false)
            }
        },
        Node::Text { value } => (value@, true),
        _ => (seq![], false),
    }
}

/// What rendering the sequence `s` writes, each node between `pre` and `post`,
/// and whether all of it was supported. Rendering stops after the first node
/// that is not supported, once its `post` is written.
pub open spec fn rendered_seq(s: Seq<Node>, pre: Seq<char>, post: Seq<char>) -> (Seq<char>, bool)
    decreases s,
{
    if s.len() == 0 {
        (seq![], true)
    } else {
        let (a, ok) = rendered_seq(s.drop_last(), pre, post);
        if !ok {
            (a, false)
        } else {
            let (t, node_ok) = rendered(s.last());
            (a + pre + t + post, node_ok)
        }
    }
}

/// What rendering the nodes of all `items` as one list writes: each node after
/// `- ` and before a line break, stopping after the first unsupported node.
pub open spec fn rendered_items(items: Seq<ListItem>) -> (Seq<char>, bool)
    decreases items,
{
    if items.len() == 0 {
        (seq![], true)
    } else {
        let (a, ok) = rendered_items(items.drop_last());
        if !ok {
            (a, false)
        } else {
            let (t, item_ok) = rendered_seq(items.last().nodes@, list_prefix(), list_postfix());
            (a + t, item_ok)
        }
    }
}

/// Writes the marker that opens a heading of the given level.
fn write_heading_marker(sink: &mut String, level: u8)
    ensures
        final(sink)@ == old(sink)@ + heading_marker(level),
{
    let mut i: u8 = 0;
    while i < level
        invariant
            i <= level,
            sink@ == old(sink)@ + hashes(i as nat),
        decreases level - i,
    {
        proof {
            reveal_strlit("#");
        }
        sink.append("#");
        assert(hashes((i + 1) as nat) =~= hashes(i as nat) + seq!['#']);
        i = i + 1;
        assert(sink@ =~= old(sink)@ + hashes(i as nat));
    }
    proof {
        reveal_strlit(" ");
    }
    sink.append(" ");
    assert(sink@ =~= old(sink)@ + heading_marker(level));
}

/// Renders one node into `sink` and returns whether it was fully supported.
pub fn write_node(sink: &mut String, node: &Node) -> (r: bool)
    ensures
        final(sink)@ == old(sink)@ + rendered(*node).0,
        r == rendered(*node).1,
    decreases node,
{
    match node {
        Node::Heading { level, nodes } => {
            write_heading_marker(sink, *level);
            proof {
                reveal_strlit("");
                assert(""@ =~= Seq::<char>::empty());
            }
            let result = write_nodes_with_affix(sink, nodes, "", "");
            if result {
                proof {
                    reveal_strlit("\n\n");
                }
                sink.append("\n\n");
            }
            assert(sink@ =~= old(sink)@ + rendered(*node).0);
            result
        },
        Node::Link { target, text } => {
            proof {
                reveal_strlit("[");
            }
            sink.append("[");
            proof {
                reveal_strlit("");
                assert(""@ =~= Seq::<char>::empty());
            }
            let result = write_nodes_with_affix(sink, text, "", "");
            write_link_close(sink, target.as_str());
            assert(sink@ =~= old(sink)@ + rendered(*node).0);
            result
        },
        Node::Redirect { target } => {
            write_link(sink, target.as_str(), target.as_str());
            true
        },
        Node::UnorderedList { items } => {
            let result = write_list_items(sink, items);
            if result {
                proof {
                    reveal_strlit("\n");
                }
                sink.append("\n");
            }
            assert(sink@ =~= old(sink)@ + rendered(*node).0);
            result
        },
        Node::Text { value } => {
            sink.append(value.as_str());
            true
        },
        Node::Bold => false,
        Node::BoldItalic => false,
        Node::Category => false,
        Node::CharacterEntity => false,
        Node::Comment => false,
        Node::DefinitionList => false,
        Node::EndTag => false,
        Node::ExternalLink => false,
        Node::HorizontalDivider => false,
        Node::Image => false,
        Node::Italic => false,
        Node::MagicWord => false,
        Node::OrderedList => false,
        Node::ParagraphBreak => false,
        Node::Parameter => false,
        Node::Preformatted => false,
        Node::Table => false,
        Node::Tag => false,
        Node::Template => false,
        Node::StartTag => false,
    }
}

/// Renders `nodes` in order, writing `prefix` before and `postfix` after each
/// one, and stops after the first node that is not supported. Returns whether
/// every node was supported.
pub fn write_nodes_with_affix(sink: &mut String, nodes: &Vec<Node>, prefix: &str, postfix: &str) -> (r: bool)
    ensures
        final(sink)@ == old(sink)@ + rendered_seq(nodes@, prefix@, postfix@).0,
        r == rendered_seq(nodes@, prefix@, postfix@).1,
    decreases nodes,
{
    let mut i: usize = 0;
    while i < nodes.len()
        invariant
            i <= nodes@.len(),
            sink@ == old(sink)@ + rendered_seq(nodes@.take(i as int), prefix@, postfix@).0,
            rendered_seq(nodes@.take(i as int), prefix@, postfix@).1,
        decreases nodes@.len() - i,
    {
        proof {
            assert(nodes@.take(i + 1).drop_last() =~= nodes@.take(i as int));
        }
        sink.append(prefix);
        let written = write_node(sink, &nodes[i]);
        sink.append(postfix);
        i = i + 1;
        assert(sink@ =~= old(sink)@ + rendered_seq(nodes@.take(i as int), prefix@, postfix@).0);
        if !written {
            proof {
                lemma_rendered_seq_stopped(nodes@, prefix@, postfix@, i as int);
            }
            return false;
        }
    }
    assert(nodes@.take(i as int) =~= nodes@);
    true
}

/// Renders `nodes` in order with nothing around them.
pub fn write_nodes(sink: &mut String, nodes: &Vec<Node>) -> (r: bool)
    ensures
        final(sink)@ == old(sink)@ + rendered_seq(nodes@, seq![], seq![]).0,
        r == rendered_seq(nodes@, seq![], seq![]).1,
{
    proof {
        reveal_strlit("");
        assert(""@ =~= Seq::<char>::empty());
    }
    write_nodes_with_affix(sink, nodes, "", "")
}

/// Renders the nodes of all `items` as one list.
fn write_list_items(sink: &mut String, items: &Vec<ListItem>) -> (r: bool)
    ensures
        final(sink)@ == old(sink)@ + rendered_items(items@).0,
        r == rendered_items(items@).1,
    decreases items,
{
    let mut i: usize = 0;
    while i < items.len()
        invariant
            i <= items@.len(),
            sink@ == old(sink)@ + rendered_items(items@.take(i as int)).0,
            rendered_items(items@.take(i as int)).1,
        decreases items@.len() - i,
    {
        proof {
            assert(items@.take(i + 1).drop_last() =~= items@.take(i as int));
            reveal_strlit("- ");
            reveal_strlit("\n");
            assert("- "@ =~= list_prefix());
            assert("\n"@ =~= list_postfix());
        }
        let written = write_nodes_with_affix(sink, &items[i].nodes, "- ", "\n");
        i = i + 1;
        assert(sink@ =~= old(sink)@ + rendered_items(items@.take(i as int)).0);
        if !written {
            proof {
                lemma_rendered_items_stopped(items@, i as int);
            }
            return false;
        }
    }
    assert(items@.take(i as int) =~= items@);
    true
}

/// Once a prefix of `s` is not fully supported, rendering all of `s` writes
/// and reports what rendering that prefix does.
pub proof fn lemma_rendered_seq_stopped(s: Seq<Node>, pre: Seq<char>, post: Seq<char>, k: int)
    requires
        0 <= k <= s.len(),
        !rendered_seq(s.take(k), pre, post).1,
    ensures
        rendered_seq(s, pre, post) == rendered_seq(s.take(k), pre, post),
    decreases s.len() - k,
{
    if k < s.len() {
        assert(s.take(k + 1).drop_last() =~= s.take(k));
        lemma_rendered_seq_stopped(s, pre, post, k + 1);
    } else {
        assert(s.take(k) =~= s);
    }
}

/// The same, for the items of a list.
proof fn lemma_rendered_items_stopped(items: Seq<ListItem>, k: int)
    requires
        0 <= k <= items.len(),
        !rendered_items(items.take(k)).1,
    ensures
        rendered_items(items) == rendered_items(items.take(k)),
    decreases items.len() - k,
{
    if k < items.len() {
        assert(items.take(k + 1).drop_last() =~= items.take(k));
        lemma_rendered_items_stopped(items, k + 1);
    } else {
        assert(items.take(k) =~= items);
    }
}

/// Renders a whole document: its title line, then its top-level nodes.
/// Returns whether every node was supported.
pub fn write_document(sink: &mut String, title: &str, nodes: &Vec<Node>) -> (r: bool)
    ensures
        final(sink)@ == old(sink)@ + title_line(title@) + rendered_seq(nodes@, seq![], seq![]).0,
        r == rendered_seq(nodes@, seq![], seq![]).1,
{
    proof {
        reveal_strlit("# ");
        reveal_strlit("\n\n");
    }
    sink.append("# ");
    sink.append(title);
    sink.append("\n\n");
    assert(sink@ =~= old(sink)@ + title_line(title@));
    write_nodes(sink, nodes)
}

} // verus!
