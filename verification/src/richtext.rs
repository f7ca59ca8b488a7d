//! Rich text for Minecraft: the player list and the message of the day, as
//! segments of styled text.
pub mod list;
pub mod motd;

use vstd::prelude::*;

verus! {

/// The named colours the hub uses.
#[derive(PartialEq, Eq, Structural, Debug, Clone, Copy)]
pub enum NamedColor {
    Green,
    Yellow,
    White,
}

/// What hovering over a segment shows.
#[derive(Debug)]
pub enum Hover {
    /// A line of text.
    ShowText(String),
    /// An entity: its display name, its type and its hyphenated UUID.
    ShowEntity { name: String, id: String, uuid: String },
}

/// One piece of a rich text.
#[derive(Debug)]
pub enum TextSegment {
    /// Unstyled text.
    Plain(String),
    /// Text with a colour, a command suggested on click and a hover action.
    Styled { text: String, color: Option<NamedColor>, suggest_command: Option<String>, hover: Option<Hover> },
}

/// What a [`Hover`] means in specifications.
pub enum HoverView {
    ShowText(Seq<char>),
    ShowEntity { name: Seq<char>, id: Seq<char>, uuid: Seq<char> },
}

/// What a [`TextSegment`] means in specifications.
pub enum SegmentView {
    Plain(Seq<char>),
    Styled {
        text: Seq<char>,
        color: Option<NamedColor>,
        suggest_command: Option<Seq<char>>,
        hover: Option<HoverView>,
    },
}

impl View for Hover {
    type V = HoverView;

    open spec fn view(&self) -> HoverView {
        match self {
            Hover::ShowText(t) => HoverView::ShowText(t@),
            Hover::ShowEntity { name, id, uuid } => HoverView::ShowEntity { name: name@, id: id@, uuid: uuid@ },
        }
    }
}

impl View for TextSegment {
    type V = SegmentView;

    open spec fn view(&self) -> SegmentView {
        match self {
            TextSegment::Plain(t) => SegmentView::Plain(t@),
            TextSegment::Styled { text, color, suggest_command, hover } => SegmentView::Styled {
                text: text@,
                color: *color,
                suggest_command: match suggest_command {
                    Some(c) => Some(c@),
                    None => None,
                },
                hover: match hover {
                    Some(h) => Some(h@),
                    None => None,
                },
            },
        }
    }
}

/// The views of a sequence of segments.
pub open spec fn segments_view(v: Seq<TextSegment>) -> Seq<SegmentView> {
    v.map_values(|t: TextSegment| t@)
}

/// Unstyled text.
pub fn plain(text: &str) -> (res: TextSegment)
    ensures
        res@ == SegmentView::Plain(text@),
{
    TextSegment::Plain(String::from_str(text))
}

/// Text in a colour, with nothing on click or hover.
pub fn colored(text: &str, color: NamedColor) -> (res: TextSegment)
    ensures
        res@ == (SegmentView::Styled { text: text@, color: Some(color), suggest_command: None, hover: None }),
{
    TextSegment::Styled { text: String::from_str(text), color: Some(color), suggest_command: None, hover: None }
}

} // verus!
