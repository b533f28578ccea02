use vstd::prelude::*;

verus! {

/// One parsed unit of wiki markup. The kinds that the renderer supports carry
/// what it reads; every other kind is named on its own and carries nothing.
pub enum Node {
    Heading { level: u8, nodes: Vec<Node> },
    Link { target: String, text: Vec<Node> },
    Redirect { target: String },
    UnorderedList { items: Vec<ListItem> },
    Text { value: String },
    Bold,
    BoldItalic,
    Category,
    CharacterEntity,
    Comment,
    DefinitionList,
    EndTag,
    ExternalLink,
    HorizontalDivider,
    Image,
    Italic,
    MagicWord,
    OrderedList,
    ParagraphBreak,
    Parameter,
    Preformatted,
    Table,
    Tag,
    Template,
    StartTag,
}

/// One item of an unordered list.
pub struct ListItem {
    pub nodes: Vec<Node>,
}

} // verus!
