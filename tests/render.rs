use wiki_render::link::{resolve_link, write_link, write_link_close};
use wiki_render::node::{ListItem, Node};
use wiki_render::render::{write_document, write_node, write_nodes, write_nodes_with_affix};

fn text(s: &str) -> Node {
    Node::Text { value: s.to_string() }
}

fn render_one(node: &Node) -> (String, bool) {
    let mut sink = String::new();
    let ok = write_node(&mut sink, node);
    (sink, ok)
}

#[test]
fn resolve_replaces_every_space() {
    assert_eq!(resolve_link("A B C"), "A_B_C");
    assert_eq!(resolve_link("NoSpaces"), "NoSpaces");
    assert_eq!(resolve_link("  two  "), "__two__");
    assert_eq!(resolve_link(""), "");
}

#[test]
fn resolve_is_idempotent() {
    for s in ["A B C", "NoSpaces", " x_y z ", ""] {
        let once = resolve_link(s);
        assert_eq!(resolve_link(&once), once);
    }
}

#[test]
fn link_pieces() {
    let mut sink = String::from(">");
    write_link(&mut sink, "Main Page", "Main Page");
    assert_eq!(sink, ">[Main Page](Main_Page)");
    write_link_close(&mut sink, "a b");
    assert_eq!(sink, ">[Main Page](Main_Page)](a_b)");
}

#[test]
fn heading_level_three() {
    let node = Node::Heading { level: 3, nodes: vec![text("Hi")] };
    assert_eq!(render_one(&node), ("### Hi\n\n".to_string(), true));
}

#[test]
fn heading_with_unsupported_child_stops_after_marker() {
    let node = Node::Heading { level: 2, nodes: vec![Node::Bold] };
    assert_eq!(render_one(&node), ("## ".to_string(), false));
}

#[test]
fn heading_keeps_text_before_unsupported_child() {
    let node = Node::Heading { level: 1, nodes: vec![text("a"), Node::Italic, text("b")] };
    assert_eq!(render_one(&node), ("# a".to_string(), false));
}

#[test]
fn heading_level_zero_and_six() {
    let zero = Node::Heading { level: 0, nodes: vec![text("z")] };
    assert_eq!(render_one(&zero), (" z\n\n".to_string(), true));
    let six = Node::Heading { level: 6, nodes: vec![] };
    assert_eq!(render_one(&six), ("###### \n\n".to_string(), true));
}

#[test]
fn link_renders_display_and_resolved_target() {
    let node = Node::Link { target: "Some Page".to_string(), text: vec![text("shown"), text(" here")] };
    assert_eq!(render_one(&node), ("[shown here](Some_Page)".to_string(), true));
}

#[test]
fn link_with_unsupported_display_is_still_closed() {
    let node = Node::Link { target: "T x".to_string(), text: vec![text("a"), Node::Template, text("b")] };
    assert_eq!(render_one(&node), ("[a](T_x)".to_string(), false));
}

#[test]
fn redirect_uses_target_as_text() {
    let node = Node::Redirect { target: "Other Page".to_string() };
    assert_eq!(render_one(&node), ("[Other Page](Other_Page)".to_string(), true));
}

#[test]
fn text_is_verbatim() {
    assert_eq!(render_one(&text("a [b] #c")), ("a [b] #c".to_string(), true));
}

#[test]
fn every_other_kind_is_unsupported_and_writes_nothing() {
    let kinds = vec![
        Node::Bold, Node::BoldItalic, Node::Category, Node::CharacterEntity, Node::Comment,
        Node::DefinitionList, Node::EndTag, Node::ExternalLink, Node::HorizontalDivider,
        Node::Image, Node::Italic, Node::MagicWord, Node::OrderedList, Node::ParagraphBreak,
        Node::Parameter, Node::Preformatted, Node::Table, Node::Tag, Node::Template,
        Node::StartTag,
    ];
    for k in &kinds {
        assert_eq!(render_one(k), (String::new(), false));
    }
}

#[test]
fn list_of_supported_items() {
    let node = Node::UnorderedList {
        items: vec![
            ListItem { nodes: vec![text("x")] },
            ListItem { nodes: vec![text("a"), text("b")] },
            ListItem { nodes: vec![] },
        ],
    };
    assert_eq!(render_one(&node), ("- x\n- a\n- b\n\n".to_string(), true));
}

#[test]
fn empty_list_writes_blank_line() {
    let node = Node::UnorderedList { items: vec![] };
    assert_eq!(render_one(&node), ("\n".to_string(), true));
}

#[test]
fn list_stops_after_unsupported_item() {
    let root = vec![Node::UnorderedList {
        items: vec![
            ListItem { nodes: vec![text("x")] },
            ListItem { nodes: vec![Node::Category] },
            ListItem { nodes: vec![text("never")] },
        ],
    }];
    let mut sink = String::new();
    let ok = write_nodes(&mut sink, &root);
    assert!(!ok);
    assert!(sink.starts_with("- x\n- "));
    assert_eq!(sink, "- x\n- \n");
}

#[test]
fn document_title_and_text() {
    let mut sink = String::new();
    let ok = write_document(&mut sink, "Foo/Bar", &vec![text("hello")]);
    assert!(ok);
    assert_eq!(sink, "# Foo/Bar\n\nhello");
}

#[test]
fn document_with_unsupported_node() {
    let mut sink = String::new();
    let ok = write_document(&mut sink, "T", &vec![text("a"), Node::Table, text("b")]);
    assert!(!ok);
    assert_eq!(sink, "# T\n\na");
}

#[test]
fn empty_sequence_is_supported() {
    let mut sink = String::from("kept");
    assert!(write_nodes_with_affix(&mut sink, &vec![], "<", ">"));
    assert_eq!(sink, "kept");
}

#[test]
fn supported_sequence_is_concatenation_of_nodes() {
    let nodes = vec![
        text("a"),
        Node::Redirect { target: "B C".to_string() },
        Node::Link { target: "T x".to_string(), text: vec![text("y")] },
        Node::Heading { level: 1, nodes: vec![text("z")] },
        Node::UnorderedList { items: vec![ListItem { nodes: vec![text("w")] }] },
    ];
    let mut sink = String::new();
    assert!(write_nodes_with_affix(&mut sink, &nodes, "<", ">"));
    let mut expected = String::new();
    for n in &nodes {
        let (piece, ok) = render_one(n);
        assert!(ok);
        expected.push('<');
        expected.push_str(&piece);
        expected.push('>');
    }
    assert_eq!(sink, expected);
    assert_eq!(sink, "<a><[B C](B_C)><[y](T_x)><# z\n\n><- w\n\n>");
}

#[test]
fn first_unsupported_node_stops_sequence() {
    let nodes = vec![
        text("a"),
        Node::Heading { level: 2, nodes: vec![text("h"), Node::Comment] },
        text("c"),
        Node::Bold,
    ];
    let mut sink = String::new();
    assert!(!write_nodes_with_affix(&mut sink, &nodes, "<", ">"));
    assert_eq!(sink, "<a><## h>");
}
