//! Where the blocks of a slide go on the screen: the rectangle of each block
//! and the row at which the next one starts. All sizes are in character
//! cells.

use vstd::prelude::*;
use vstd::string::*;
use itertools::Itertools;
use qrcode::types::QrError;
use crate::blocks::{Block, SlideItem};
use crate::slides::{Slide, SlideModel, Slides};
use crate::text::{
    byte_count, byte_len, byte_lens, char_lens, lines_of, longest_bytes, longest_chars, max_of,
    split_lines,
};

verus! {

/// A rectangle of character cells.
#[derive(Clone, Copy, Debug, PartialEq, Eq, Structural)]
pub struct Rect {
    pub x: u16,
    pub y: u16,
    pub width: u16,
    pub height: u16,
}

/// What is drawn into a rectangle.
#[derive(Debug, Clone, PartialEq, Eq)]
pub enum Widget {
    /// The title of the slide, centred, white on blue.
    TitleBar(String),
    /// A heading, centred, bold and italic, white on black.
    Heading(String),
    /// Running text in italics, wrapped at the rectangle's width.
    Paragraph(String),
    /// The lines of a list, each with its marker.
    List(Vec<String>),
    /// Code behind a border on its left, not wrapped.
    Code(String),
    /// The rows of a QR symbol, plain.
    Symbol(String),
}

/// One drawing: a rectangle and what goes into it.
#[derive(Debug, Clone, PartialEq, Eq)]
pub struct Draw {
    pub area: Rect,
    pub widget: Widget,
}

/// Why a slide cannot be laid out.
#[derive(Clone, Copy, Debug, PartialEq, Eq, Structural)]
pub enum RenderError {
    /// The data of a QR block does not fit into any QR symbol.
    QrEncoding,
    /// A width, a height or a row does not fit into 16 bits.
    TooLarge,
}

impl RenderError {
    /// The error in words.
    pub open spec fn wording(self) -> Seq<char> {
        match self {
            RenderError::QrEncoding => "the data does not fit into a QR symbol"@,
            RenderError::TooLarge => "the slide is too large for the screen's coordinates"@,
        }
    }

    /// The error in words.
    pub fn message(&self) -> (words: String)
        ensures
            words@ == self.wording(),
    {
        match self {
            RenderError::QrEncoding => "the data does not fit into a QR symbol".to_owned(),
            RenderError::TooLarge => "the slide is too large for the screen's coordinates".to_owned(),
        }
    }
}

/// The model of a [`Widget`].
pub enum Picture {
    TitleBar(Seq<char>),
    Heading(Seq<char>),
    Paragraph(Seq<char>),
    List(Seq<Seq<char>>),
    Code(Seq<char>),
    Symbol(Seq<char>),
}

/// The model of a [`Draw`].
pub struct Drawing {
    pub area: Rect,
    pub picture: Picture,
}

impl DeepView for Widget {
    type V = Picture;

    open spec fn deep_view(&self) -> Picture {
        match self {
            Widget::TitleBar(text) => Picture::TitleBar(text@),
            Widget::Heading(text) => Picture::Heading(text@),
            Widget::Paragraph(text) => Picture::Paragraph(text@),
            Widget::List(lines) => Picture::List(lines.deep_view()),
            Widget::Code(text) => Picture::Code(text@),
            Widget::Symbol(rows) => Picture::Symbol(rows@),
        }
    }
}

impl DeepView for Draw {
    type V = Drawing;

    open spec fn deep_view(&self) -> Drawing {
        Drawing { area: self.area, picture: self.widget.deep_view() }
    }
}

/// The width at which a paragraph is wrapped.
pub const WRAP_WIDTH: u128 = 80;

/// The column at which every block starts.
pub const LEFT_MARGIN: u16 = 4;

/// The row at which the first block starts.
pub const FIRST_ROW: u16 = 4;

/// The columns that the two margins take from the frame's width.
pub const MARGINS: u16 = 8;

/// The marker in front of each line of a list.
pub const MARKER: &'static str = "- ";

/// What a block needs: the size of its rectangle, and how many rows further
/// down the next block starts.
pub struct Extent {
    pub width: nat,
    pub height: nat,
    pub advance: nat,
}

/// A heading is one row high and four cells wider than its text; the next
/// block starts two rows below.
pub open spec fn heading_extent(text: Seq<char>) -> Extent {
    Extent { width: byte_len(text) + 4, height: 1, advance: 2 }
}

/// A paragraph is measured before it is wrapped: by its longest line and by
/// the number of its lines.
pub open spec fn paragraph_extent(text: Seq<char>) -> Extent {
    let lines = lines_of(text);
    let longest = max_of(byte_lens(lines));
    let height = longest / (WRAP_WIDTH as nat) + 2;
    Extent {
        width: if height == 1 {
            longest
        } else {
            WRAP_WIDTH as nat
        },
        height,
        advance: lines.len() + 2,
    }
}

/// A list has one row for each item and is five cells wider than its longest
/// item.
pub open spec fn bullets_extent(items: Seq<Seq<char>>) -> Extent {
    Extent { width: max_of(byte_lens(items)) + 5, height: items.len(), advance: items.len() + 2 }
}

/// Code that is `width` cells wide and `height` rows high takes two cells
/// more for its border.
pub open spec fn code_extent(width: nat, height: nat) -> Extent {
    Extent { width: width + 2, height, advance: height + 2 }
}

/// A QR symbol takes what its rows take.
pub open spec fn symbol_extent(rows: Seq<char>) -> Extent {
    let lines = lines_of(rows);
    Extent { width: max_of(char_lens(lines)), height: lines.len(), advance: lines.len() + 2 }
}

/// Whether a block of `extent` that starts at `origin` can be given
/// coordinates of 16 bits.
pub open spec fn fits(extent: Extent, origin: Rect) -> bool {
    extent.width <= u16::MAX && extent.height <= u16::MAX && origin.y + extent.advance <= u16::MAX
}

/// The drawing of `picture` with `extent` at the top left corner of `origin`,
/// and the row at which the next block starts.
pub open spec fn placed(picture: Picture, extent: Extent, origin: Rect) -> Result<
    (Drawing, u16),
    RenderError,
> {
    if fits(extent, origin) {
        Ok(
            (
                Drawing {
                    area: Rect {
                        x: origin.x,
                        y: origin.y,
                        width: extent.width as u16,
                        height: extent.height as u16,
                    },
                    picture,
                },
                (origin.y + extent.advance) as u16,
            ),
        )
    } else {
        Err(RenderError::TooLarge)
    }
}

/// Each item of a list behind its marker.
pub open spec fn marked(items: Seq<Seq<char>>) -> Seq<Seq<char>> {
    items.map_values(|item: Seq<char>| MARKER@ + item)
}

/// `line` with each of its characters written twice.
pub open spec fn doubled(line: Seq<char>) -> Seq<char>
    decreases line.len(),
{
    if line.len() == 0 {
        Seq::empty()
    } else {
        doubled(line.drop_last()).push(line.last()).push(line.last())
    }
}

/// `lines` written one after the other, with a line feed between each two.
pub open spec fn joined_lines(lines: Seq<Seq<char>>) -> Seq<char>
    decreases lines.len(),
{
    if lines.len() == 0 {
        Seq::empty()
    } else if lines.len() == 1 {
        lines[0]
    } else {
        joined_lines(lines.drop_last()) + seq!['\n'] + lines.last()
    }
}

/// The rows drawn for a QR symbol that was rendered as `symbol`, one
/// character for each module: each module is made two cells wide.
pub open spec fn widened(symbol: Seq<char>) -> Seq<char> {
    joined_lines(lines_of(symbol).map_values(|row: Seq<char>| doubled(row)))
}

/// The QR symbol for `data` as text, one line for each row of modules and one
/// character for each module, a full block where the module is dark and a
/// space where it is light, without a quiet zone; `None` where `data` cannot
/// be encoded.
pub uninterp spec fn qr_text(data: Seq<char>) -> Option<Seq<char>>;

/// The width in cells of the widest line of `text`, as ratatui measures it.
pub uninterp spec fn text_width(text: Seq<char>) -> nat;

/// The number of rows that `text` takes: one for each of its lines, and one
/// if it is empty.
pub open spec fn text_height(text: Seq<char>) -> nat {
    if text.len() == 0 {
        1
    } else {
        lines_of(text).len()
    }
}

/// The drawing of a QR symbol that was rendered as `symbol`.
pub open spec fn placed_symbol(symbol: Seq<char>, origin: Rect) -> Result<
    (Drawing, u16),
    RenderError,
> {
    placed(Picture::Symbol(widened(symbol)), symbol_extent(widened(symbol)), origin)
}

/// The drawing of code `text` that was measured as `width` by `height`.
pub open spec fn placed_code(text: Seq<char>, width: nat, height: nat, origin: Rect) -> Result<
    (Drawing, u16),
    RenderError,
> {
    placed(Picture::Code(text), code_extent(width, height), origin)
}

/// The drawing of `block` at the top left corner of `origin`, and the row at
/// which the next block starts.
pub open spec fn rendered(block: Block, origin: Rect) -> Result<(Drawing, u16), RenderError> {
    match block {
        Block::Heading(text) => placed(Picture::Heading(text), heading_extent(text), origin),
        Block::Paragraph(text) => placed(Picture::Paragraph(text), paragraph_extent(text), origin),
        Block::Bullets(items) => placed(Picture::List(marked(items)), bullets_extent(items), origin),
        Block::Code(text) => placed_code(text, text_width(text), text_height(text), origin),
        Block::QR(data) => match qr_text(data) {
            Some(symbol) => placed_symbol(symbol, origin),
            None => Err(RenderError::QrEncoding),
        },
    }
}

/// Whether `result` is what `model` says.
pub open spec fn agrees(
    result: Result<(Draw, u16), RenderError>,
    model: Result<(Drawing, u16), RenderError>,
) -> bool {
    match result {
        Ok((draw, next_y)) => model == Ok::<(Drawing, u16), RenderError>(
            (draw.deep_view(), next_y),
        ),
        Err(error) => model == Err::<(Drawing, u16), RenderError>(error),
    }
}

/// The error with which qrcode's `QrCode::new` fails.
#[verifier::external_type_specification]
#[verifier::external_body]
pub struct ExQrError(qrcode::types::QrError);

/// Encodes `data` with qrcode's `QrCode::new` and renders the symbol with the
/// crate's string renderer: no quiet zone, `'\u{2588}'` for a dark module and
/// a space for a light one. The encoder reads nothing but `data`, so the text
/// is a function of it; it fails where `data` fits no symbol.
#[verifier::external_body]
fn qr_render(data: &str) -> (symbol: Result<String, QrError>)
    ensures
        symbol is Ok <==> qr_text(data@) is Some,
        symbol is Ok ==> qr_text(data@) == Some(symbol->Ok_0@),
{
    let code = qrcode::QrCode::new(data)?;
    Ok(code.render().quiet_zone(false).dark_color('\u{2588}').light_color(' ').build())
}

/// Measures `text` with ratatui's `Text::raw`, `Text::width` and
/// `Text::height`. The text is cut into lines as `str::lines` cuts it, and an
/// empty text is one empty line; the height is the number of lines. The
/// width is the largest display width of a line, which only has a name here.
#[verifier::external_body]
fn text_size(text: &str) -> (size: (usize, usize))
    ensures
        size.0 == text_width(text@),
        size.1 == text_height(text@),
{
    let raw = ratatui::text::Text::raw(text);
    (raw.width(), raw.height())
}

/// Joins `lines` with itertools' `join` and a line feed as the separator:
/// the first line, and then a line feed and the line for each further one.
#[verifier::external_body]
fn join_lines(lines: &Vec<String>) -> (text: String)
    ensures
        text@ == joined_lines(lines.deep_view()),
{
    lines.iter().join("\n")
}

/// Gives a block its rectangle at the top left corner of `origin`.
fn place(widget: Widget, width: u128, height: u128, advance: u128, origin: Rect) -> (result: Result<
    (Draw, u16),
    RenderError,
>)
    ensures
        agrees(
            result,
            placed(
                widget.deep_view(),
                (Extent { width: width as nat, height: height as nat, advance: advance as nat }),
                origin,
            ),
        ),
{
    let limit: u128 = 0xffff;
    if width > limit || height > limit || advance > limit || origin.y as u128 + advance > limit {
        return Err(RenderError::TooLarge);
    }
    let area = Rect { x: origin.x, y: origin.y, width: width as u16, height: height as u16 };
    Ok((Draw { area, widget }, (origin.y as u128 + advance) as u16))
}

/// Each item behind the list marker.
pub fn marked_items(items: &Vec<String>) -> (lines: Vec<String>)
    ensures
        lines.deep_view() == marked(items.deep_view()),
{
    let mut lines: Vec<String> = Vec::new();
    let ghost all = items.deep_view();
    for i in 0..items.len()
        invariant
            all == items.deep_view(),
            lines.deep_view() == marked(all.take(i as int)),
    {
        let mut line = MARKER.to_owned();
        line.append(items[i].as_str());
        lines.push(line);
        assert(marked(all.take(i + 1)) =~= marked(all.take(i as int)).push(MARKER@ + all[i as int]));
    }
    lines
}

/// `line` with each of its characters written twice.
pub fn double_chars(line: &str) -> (wide: String)
    ensures
        wide@ == doubled(line@),
{
    let n = line.unicode_len();
    let mut wide = String::new();
    for i in 0..n
        invariant
            n == line@.len(),
            wide@ == doubled(line@.take(i as int)),
    {
        let one = line.substring_char(i, i + 1);
        assert(line@.take(i + 1).drop_last() =~= line@.take(i as int));
        wide.append(one);
        wide.append(one);
    }
    assert(line@.take(n as int) =~= line@);
    wide
}

/// The rows to draw for a QR symbol that was rendered as `symbol`.
pub fn widen(symbol: &str) -> (rows: String)
    ensures
        rows@ == widened(symbol@),
{
    let narrow = split_lines(symbol);
    let mut wide: Vec<String> = Vec::new();
    let ghost all = narrow.deep_view();
    let ghost twice = |row: Seq<char>| doubled(row);
    for i in 0..narrow.len()
        invariant
            all == narrow.deep_view(),
            twice == |row: Seq<char>| doubled(row),
            wide.deep_view() == all.take(i as int).map_values(twice),
    {
        let row = double_chars(narrow[i].as_str());
        wide.push(row);
        assert(all.take(i + 1).map_values(twice) =~= all.take(i as int).map_values(twice).push(
            doubled(all[i as int]),
        ));
    }
    assert(all.take(narrow.len() as int) =~= all);
    join_lines(&wide)
}

/// Lays out a QR symbol that was rendered as `symbol`: each module is made
/// two cells wide, and the rectangle is as wide as the widest row and as high
/// as there are rows.
pub fn place_symbol(symbol: &str, origin: Rect) -> (result: Result<(Draw, u16), RenderError>)
    ensures
        agrees(result, placed_symbol(symbol@, origin)),
{
    let rows = widen(symbol);
    let lines = split_lines(rows.as_str());
    let width: u128 = longest_chars(&lines) as u128;
    let height: u128 = lines.len() as u128;
    place(Widget::Symbol(rows), width, height, height + 2, origin)
}

/// Lays out code `text` that was measured as `width` cells by `height` rows.
pub fn place_code(text: &str, width: usize, height: usize, origin: Rect) -> (result: Result<
    (Draw, u16),
    RenderError,
>)
    ensures
        agrees(result, placed_code(text@, width as nat, height as nat, origin)),
{
    place(Widget::Code(text.to_owned()), width as u128 + 2, height as u128, height as u128 + 2, origin)
}

impl SlideItem {
    /// Lays out the block at the top left corner of `rect`: returns what to
    /// draw and where, and the row at which the next block starts. The width
    /// and the height of `rect` are not read: a block takes what it needs.
    pub fn render(&self, rect: Rect) -> (result: Result<(Draw, u16), RenderError>)
        ensures
            agrees(result, rendered(self.deep_view(), rect)),
    {
        match self {
            SlideItem::Heading(text) => {
                let width: u128 = byte_count(text.as_str()) as u128 + 4;
                place(Widget::Heading(text.clone()), width, 1, 2, rect)
            },
            SlideItem::Paragraph(text) => {
                let lines = split_lines(text.as_str());
                let longest: u128 = longest_bytes(&lines) as u128;
                let height: u128 = longest / WRAP_WIDTH + 2;
                let width: u128 = if height == 1 {
                    longest
                } else {
                    WRAP_WIDTH
                };
                place(Widget::Paragraph(text.clone()), width, height, lines.len() as u128 + 2, rect)
            },
            SlideItem::Bullets(items) => {
                let width: u128 = longest_bytes(items) as u128 + 5;
                let height: u128 = items.len() as u128;
                place(Widget::List(marked_items(items)), width, height, height + 2, rect)
            },
            SlideItem::Code(text) => {
                let (width, height) = text_size(text.as_str());
                place_code(text.as_str(), width, height, rect)
            },
            SlideItem::QR(data) => match qr_render(data.as_str()) {
                Ok(symbol) => place_symbol(symbol.as_str(), rect),
                Err(_) => Err(RenderError::QrEncoding),
            },
        }
    }
}

/// The rectangle offered to a block that starts at row `y` of a frame: from
/// the left margin, as wide as the frame without its margins and as high as
/// what is left of the frame below `y`, and empty where nothing is left.
pub open spec fn origin_at(y: u16, frame_width: u16, frame_height: u16) -> Rect {
    Rect {
        x: LEFT_MARGIN,
        y,
        width: if frame_width >= MARGINS {
            (frame_width - MARGINS) as u16
        } else {
            0
        },
        height: if frame_height >= y {
            (frame_height - y) as u16
        } else {
            0
        },
    }
}

/// The title bar: one row high, at row 1, from the left edge, two cells
/// wider than the title.
pub open spec fn title_bar(title: Seq<char>) -> Result<Drawing, RenderError> {
    if byte_len(title) + 2 <= u16::MAX {
        Ok(
            Drawing {
                area: Rect { x: 0, y: 1, width: (byte_len(title) + 2) as u16, height: 1 },
                picture: Picture::TitleBar(title),
            },
        )
    } else {
        Err(RenderError::TooLarge)
    }
}

/// The drawings of `blocks`, stacked from the first row down, and the row
/// below the last of them. Each block starts where the one before it said the
/// next one starts. The first block that cannot be laid out fails them all.
pub open spec fn stacked(blocks: Seq<Block>, frame_width: u16, frame_height: u16) -> Result<
    (Seq<Drawing>, u16),
    RenderError,
>
    decreases blocks.len(),
{
    if blocks.len() == 0 {
        Ok((Seq::empty(), FIRST_ROW))
    } else {
        match stacked(blocks.drop_last(), frame_width, frame_height) {
            Err(error) => Err(error),
            Ok((drawings, y)) => match rendered(
                blocks.last(),
                origin_at(y, frame_width, frame_height),
            ) {
                Err(error) => Err(error),
                Ok((drawing, next_y)) => Ok((drawings.push(drawing), next_y)),
            },
        }
    }
}

/// The drawings of a slide: the title bar, and then the blocks from top to
/// bottom.
pub open spec fn slide_drawings(
    title: Seq<char>,
    blocks: Seq<Block>,
    frame_width: u16,
    frame_height: u16,
) -> Result<Seq<Drawing>, RenderError> {
    match title_bar(title) {
        Err(error) => Err(error),
        Ok(bar) => match stacked(blocks, frame_width, frame_height) {
            Err(error) => Err(error),
            Ok((drawings, _)) => Ok(seq![bar] + drawings),
        },
    }
}

/// Blocks are stacked from the first row down: every block starts at the
/// left margin, the first at the first row, and each of the others at the row
/// that the block before it gave, at least two rows further down.
pub proof fn lemma_stack_goes_down(blocks: Seq<Block>, frame_width: u16, frame_height: u16)
    requires
        stacked(blocks, frame_width, frame_height) is Ok,
    ensures
        ({
            let (drawings, next_y) = stacked(blocks, frame_width, frame_height)->Ok_0;
            &&& drawings.len() == blocks.len()
            &&& forall|i: int| 0 <= i < drawings.len() ==> (#[trigger] drawings[i]).area.x == LEFT_MARGIN
            &&& drawings.len() > 0 ==> drawings[0].area.y == FIRST_ROW
            &&& forall|i: int|
                0 <= i < drawings.len() - 1 ==> drawings[i].area.y + 2 <= (#[trigger] drawings[i
                    + 1]).area.y
            &&& drawings.len() > 0 ==> drawings.last().area.y + 2 <= next_y
            &&& drawings.len() == 0 ==> next_y == FIRST_ROW
        }),
    decreases blocks.len(),
{
    if blocks.len() > 0 {
        lemma_stack_goes_down(blocks.drop_last(), frame_width, frame_height);
    }
}

/// A block starts where it is told to, and the next one starts at least two
/// rows further down.
pub proof fn lemma_block_goes_down(block: Block, origin: Rect)
    requires
        rendered(block, origin) is Ok,
    ensures
        rendered(block, origin)->Ok_0.0.area.x == origin.x,
        rendered(block, origin)->Ok_0.0.area.y == origin.y,
        origin.y + 2 <= rendered(block, origin)->Ok_0.1,
{
}

/// The rectangle offered to a block that starts at row `y`.
fn offer(y: u16, frame_width: u16, frame_height: u16) -> (rect: Rect)
    ensures
        rect == origin_at(y, frame_width, frame_height),
{
    Rect {
        x: LEFT_MARGIN,
        y,
        width: if frame_width >= MARGINS {
            frame_width - MARGINS
        } else {
            0
        },
        height: if frame_height >= y {
            frame_height - y
        } else {
            0
        },
    }
}

/// Lays out a slide in a frame of `frame_width` by `frame_height` cells: the
/// title bar first, then one drawing for each block, from top to bottom. A
/// block that starts below the frame is laid out all the same; nothing is
/// clipped or scrolled here.
pub fn render_slide(slide: &Slide, frame_width: u16, frame_height: u16) -> (result: Result<
    Vec<Draw>,
    RenderError,
>)
    ensures
        match result {
            Ok(draws) => slide_drawings(
                slide.title@,
                slide.items.deep_view(),
                frame_width,
                frame_height,
            ) == Ok::<Seq<Drawing>, RenderError>(draws.deep_view()) && draws.len() == 1
                + slide.items.len(),
            Err(error) => slide_drawings(
                slide.title@,
                slide.items.deep_view(),
                frame_width,
                frame_height,
            ) == Err::<Seq<Drawing>, RenderError>(error),
        },
{
    let title_len = byte_count(slide.title.as_str());
    if title_len > 0xfffd {
        return Err(RenderError::TooLarge);
    }
    let bar = Draw {
        area: Rect { x: 0, y: 1, width: (title_len + 2) as u16, height: 1 },
        widget: Widget::TitleBar(slide.title.clone()),
    };
    let mut draws: Vec<Draw> = Vec::new();
    draws.push(bar);
    let mut y: u16 = FIRST_ROW;
    let ghost blocks = slide.items.deep_view();
    let ghost mut below: Seq<Drawing> = Seq::empty();
    for i in 0..slide.items.len()
        invariant
            blocks == slide.items.deep_view(),
            title_bar(slide.title@) == Ok::<Drawing, RenderError>(bar.deep_view()),
            stacked(blocks.take(i as int), frame_width, frame_height) == Ok::<
                (Seq<Drawing>, u16),
                RenderError,
            >((below, y)),
            draws.deep_view() == seq![bar.deep_view()] + below,
            draws.len() == 1 + i,
    {
        assert(blocks.take(i + 1).drop_last() =~= blocks.take(i as int));
        match slide.items[i].render(offer(y, frame_width, frame_height)) {
            Ok((draw, next_y)) => {
                let ghost before = draws.deep_view();
                draws.push(draw);
                proof {
                    assert(draws.deep_view() =~= before.push(draw.deep_view()));
                    below = below.push(draw.deep_view());
                }
                y = next_y;
            },
            Err(error) => {
                proof {
                    lemma_failure_stays(blocks, (i + 1) as nat, frame_width, frame_height);
                }
                return Err(error);
            },
        }
    }
    assert(blocks.take(slide.items.len() as int) =~= blocks);
    Ok(draws)
}

/// The drawings of a frame that shows the slide at `cursor` of `deck`: those of
/// that slide, and none where there is no slide.
pub open spec fn frame_drawings_of(
    deck: Seq<SlideModel>,
    cursor: nat,
    frame_width: u16,
    frame_height: u16,
) -> Result<Seq<Drawing>, RenderError> {
    if deck.len() == 0 {
        Ok(Seq::empty())
    } else {
        slide_drawings(
            deck[cursor as int].title,
            deck[cursor as int].blocks,
            frame_width,
            frame_height,
        )
    }
}

/// Lays out what a frame of `frame_width` by `frame_height` cells shows of
/// `slides`: the slide at the cursor, and nothing where there is no slide.
pub fn frame_drawings(slides: &Slides, frame_width: u16, frame_height: u16) -> (result: Result<
    Vec<Draw>,
    RenderError,
>)
    ensures
        match result {
            Ok(draws) => frame_drawings_of(
                slides.deck(),
                slides.cursor(),
                frame_width,
                frame_height,
            ) == Ok::<Seq<Drawing>, RenderError>(draws.deep_view()),
            Err(error) => frame_drawings_of(
                slides.deck(),
                slides.cursor(),
                frame_width,
                frame_height,
            ) == Err::<Seq<Drawing>, RenderError>(error),
        },
        slides.count() == 0 ==> result is Ok && result->Ok_0.len() == 0,
{
    match slides.current() {
        Some(slide) => render_slide(slide, frame_width, frame_height),
        None => {
            let draws: Vec<Draw> = Vec::new();
            assert(draws.deep_view() =~= Seq::empty());
            Ok(draws)
        },
    }
}

/// Once the first `n` blocks cannot be laid out, no more of them can.
pub proof fn lemma_failure_stays(blocks: Seq<Block>, n: nat, frame_width: u16, frame_height: u16)
    requires
        n <= blocks.len(),
        stacked(blocks.take(n as int), frame_width, frame_height) is Err,
    ensures
        stacked(blocks, frame_width, frame_height) == stacked(
            blocks.take(n as int),
            frame_width,
            frame_height,
        ),
    decreases blocks.len(),
{
    if n < blocks.len() {
        assert(blocks.drop_last().take(n as int) =~= blocks.take(n as int));
        lemma_failure_stays(blocks.drop_last(), n, frame_width, frame_height);
    } else {
        assert(blocks.take(n as int) =~= blocks);
    }
}

} // verus!
