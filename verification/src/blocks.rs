//! The display blocks of a slide and their mathematical model.

use vstd::prelude::*;

verus! {

/// One display block of a slide.
#[derive(Debug, Clone, PartialEq, Eq)]
pub enum SlideItem {
    /// A heading line.
    Heading(String),
    /// Running text.
    Paragraph(String),
    /// A bulleted list, one string per list item, stored without the marker.
    Bullets(Vec<String>),
    /// Literal code.
    Code(String),
    /// Data to be shown as a QR symbol.
    QR(String),
}

/// The model of a [`SlideItem`]: the same variants over sequences of characters.
pub enum Block {
    Heading(Seq<char>),
    Paragraph(Seq<char>),
    Bullets(Seq<Seq<char>>),
    Code(Seq<char>),
    QR(Seq<char>),
}

impl DeepView for SlideItem {
    type V = Block;

    open spec fn deep_view(&self) -> Block {
        match self {
            SlideItem::Heading(text) => Block::Heading(text@),
            SlideItem::Paragraph(text) => Block::Paragraph(text@),
            SlideItem::Bullets(items) => Block::Bullets(items.deep_view()),
            SlideItem::Code(text) => Block::Code(text@),
            SlideItem::QR(text) => Block::QR(text@),
        }
    }
}

} // verus!
