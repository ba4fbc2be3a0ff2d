use mdslides::blocks::SlideItem;
use mdslides::layout::{
    double_chars, frame_drawings, marked_items, place_code, place_symbol, render_slide, widen, Draw, Rect,
    RenderError, Widget, FIRST_ROW, LEFT_MARGIN, MARGINS, MARKER, WRAP_WIDTH,
};
use mdslides::slides::{Slide, Slides};

fn at(x: u16, y: u16) -> Rect {
    Rect { x, y, width: 72, height: 20 }
}

fn area(x: u16, y: u16, width: u16, height: u16) -> Rect {
    Rect { x, y, width, height }
}

fn strings(items: &[&str]) -> Vec<String> {
    items.iter().map(|item| (*item).to_owned()).collect()
}

#[test]
fn layout_constants() {
    assert_eq!(WRAP_WIDTH, 80);
    assert_eq!(LEFT_MARGIN, 4);
    assert_eq!(FIRST_ROW, 4);
    assert_eq!(MARGINS, 8);
    assert_eq!(MARKER, "- ");
}

#[test]
fn heading_is_four_wider_than_its_text() {
    let (draw, next) = SlideItem::Heading("Title".to_owned()).render(at(4, 4)).unwrap();
    assert_eq!(draw.area, area(4, 4, 9, 1));
    assert_eq!(draw.widget, Widget::Heading("Title".to_owned()));
    assert_eq!(next, 6);
}

#[test]
fn empty_heading_is_four_wide() {
    let (draw, next) = SlideItem::Heading(String::new()).render(at(0, 0)).unwrap();
    assert_eq!(draw.area, area(0, 0, 4, 1));
    assert_eq!(next, 2);
}

#[test]
fn heading_counts_bytes() {
    let (draw, _) = SlideItem::Heading("caf\u{e9}".to_owned()).render(at(4, 4)).unwrap();
    assert_eq!(draw.area.width, 9);
}

#[test]
fn paragraph_of_three_lines_at_row_four() {
    let longest = "x".repeat(45);
    let text = format!("short\n{}\nmiddle line", longest);
    let (draw, next) = SlideItem::Paragraph(text.clone()).render(at(4, 4)).unwrap();
    assert_eq!(draw.area, area(4, 4, 80, 2));
    assert_eq!(draw.widget, Widget::Paragraph(text));
    assert_eq!(next, 9);
}

#[test]
fn paragraph_grows_with_its_longest_line() {
    let text = "y".repeat(79);
    let (draw, next) = SlideItem::Paragraph(text).render(at(4, 10)).unwrap();
    assert_eq!(draw.area, area(4, 10, 80, 2));
    assert_eq!(next, 13);
    let text = "y".repeat(80);
    let (draw, _) = SlideItem::Paragraph(text).render(at(4, 10)).unwrap();
    assert_eq!(draw.area, area(4, 10, 80, 3));
    let text = format!("{}\nz", "y".repeat(250));
    let (draw, next) = SlideItem::Paragraph(text).render(at(4, 10)).unwrap();
    assert_eq!(draw.area, area(4, 10, 80, 5));
    assert_eq!(next, 14);
}

#[test]
fn empty_paragraph_is_two_high() {
    let (draw, next) = SlideItem::Paragraph(String::new()).render(at(4, 4)).unwrap();
    assert_eq!(draw.area, area(4, 4, 80, 2));
    assert_eq!(next, 6);
}

#[test]
fn list_has_one_row_for_each_item() {
    let block = SlideItem::Bullets(strings(&["a", "bcd", "ef"]));
    let (draw, next) = block.render(at(4, 4)).unwrap();
    assert_eq!(draw.area, area(4, 4, 8, 3));
    assert_eq!(draw.widget, Widget::List(strings(&["- a", "- bcd", "- ef"])));
    assert_eq!(next, 9);
}

#[test]
fn empty_list_is_five_wide_and_no_row_high() {
    let (draw, next) = SlideItem::Bullets(Vec::new()).render(at(4, 7)).unwrap();
    assert_eq!(draw.area, area(4, 7, 5, 0));
    assert_eq!(draw.widget, Widget::List(Vec::new()));
    assert_eq!(next, 9);
}

#[test]
fn items_get_their_marker() {
    assert_eq!(marked_items(&strings(&["a", "", "- b"])), strings(&["- a", "- ", "- - b"]));
    assert_eq!(marked_items(&Vec::new()), Vec::<String>::new());
}

#[test]
fn code_is_two_wider_than_its_text() {
    let text = "fn main() {}\nlet x = 1;\n";
    let (draw, next) = SlideItem::Code(text.to_owned()).render(at(4, 4)).unwrap();
    assert_eq!(draw.area, area(4, 4, 14, 2));
    assert_eq!(draw.widget, Widget::Code(text.to_owned()));
    assert_eq!(next, 8);
}

#[test]
fn code_is_measured_in_cells() {
    let text = "\u{65e5}\u{672c}\u{8a9e}\n";
    let (draw, next) = SlideItem::Code(text.to_owned()).render(at(4, 4)).unwrap();
    assert_eq!(draw.area, area(4, 4, 8, 1));
    assert_eq!(next, 7);
}

#[test]
fn empty_code_is_one_row() {
    let (draw, next) = SlideItem::Code(String::new()).render(at(4, 4)).unwrap();
    assert_eq!(draw.area, area(4, 4, 2, 1));
    assert_eq!(next, 7);
}

#[test]
fn code_is_placed_as_measured() {
    let (draw, next) = place_code("ab\ncd", 2, 2, at(1, 3)).unwrap();
    assert_eq!(draw.area, area(1, 3, 4, 2));
    assert_eq!(draw.widget, Widget::Code("ab\ncd".to_owned()));
    assert_eq!(next, 7);
    assert_eq!(place_code("", 65534, 1, at(0, 0)), Err(RenderError::TooLarge));
    assert_eq!(place_code("", 65533, 1, at(0, 0)).unwrap().0.area.width, 65535);
    assert_eq!(place_code("", usize::MAX, 1, at(0, 0)), Err(RenderError::TooLarge));
    assert_eq!(place_code("", 1, usize::MAX, at(0, 0)), Err(RenderError::TooLarge));
}

#[test]
fn characters_are_doubled() {
    assert_eq!(double_chars("ab c"), "aabb  cc");
    assert_eq!(double_chars(""), "");
    assert_eq!(double_chars("\u{2588} "), "\u{2588}\u{2588}  ");
}

#[test]
fn symbol_rows_are_widened() {
    assert_eq!(widen("# \n #"), "##  \n  ##");
    assert_eq!(widen("#"), "##");
    assert_eq!(widen(""), "");
    assert_eq!(widen("ab\r\ncd\n"), "aabb\nccdd");
}

#[test]
fn symbol_is_placed_by_its_rows() {
    let (draw, next) = place_symbol("\u{2588} \u{2588}\n \u{2588} \n\u{2588}\u{2588}\u{2588}", at(4, 6)).unwrap();
    assert_eq!(draw.area, area(4, 6, 6, 3));
    assert_eq!(
        draw.widget,
        Widget::Symbol("\u{2588}\u{2588}  \u{2588}\u{2588}\n  \u{2588}\u{2588}  \n\u{2588}\u{2588}\u{2588}\u{2588}\u{2588}\u{2588}".to_owned())
    );
    assert_eq!(next, 11);
}

#[test]
fn symbol_without_rows_takes_nothing() {
    let (draw, next) = place_symbol("", at(4, 6)).unwrap();
    assert_eq!(draw.area, area(4, 6, 0, 0));
    assert_eq!(draw.widget, Widget::Symbol(String::new()));
    assert_eq!(next, 8);
}

#[test]
fn symbol_width_is_that_of_its_widest_row() {
    let (draw, _) = place_symbol("a\nbcd\nef", at(0, 0)).unwrap();
    assert_eq!(draw.area, area(0, 0, 6, 3));
}

#[test]
fn qr_block_is_drawn_as_a_square_of_modules() {
    let (draw, next) = SlideItem::QR("hello".to_owned()).render(at(4, 4)).unwrap();
    assert_eq!(draw.area, area(4, 4, 42, 21));
    assert_eq!(next, 27);
    let rows = match draw.widget {
        Widget::Symbol(rows) => rows,
        other => panic!("not a symbol: {:?}", other),
    };
    let lines: Vec<&str> = rows.lines().collect();
    assert_eq!(lines.len(), 21);
    for line in &lines {
        let cells: Vec<char> = line.chars().collect();
        assert_eq!(cells.len(), 42);
        for pair in cells.chunks(2) {
            assert_eq!(pair[0], pair[1]);
            assert!(pair[0] == '\u{2588}' || pair[0] == ' ');
        }
    }
    assert!(lines[0].starts_with(&"\u{2588}".repeat(14)));
    assert!(lines[0].ends_with(&"\u{2588}".repeat(14)));
    assert!(lines[20].starts_with(&"\u{2588}".repeat(14)));
}

#[test]
fn qr_block_is_the_same_each_time() {
    let block = SlideItem::QR("https://example.org/slides".to_owned());
    assert_eq!(block.render(at(4, 4)), block.render(at(4, 4)));
}

#[test]
fn qr_data_that_fits_no_symbol_is_an_error() {
    let block = SlideItem::QR("a".repeat(3000));
    assert_eq!(block.render(at(4, 4)), Err(RenderError::QrEncoding));
}

#[test]
fn heading_too_wide_for_the_coordinates() {
    let block = SlideItem::Heading("h".repeat(65532));
    assert_eq!(block.render(at(4, 4)), Err(RenderError::TooLarge));
    let block = SlideItem::Heading("h".repeat(65531));
    assert_eq!(block.render(at(4, 4)).unwrap().0.area.width, 65535);
}

#[test]
fn next_row_beyond_the_coordinates() {
    let block = SlideItem::Heading("h".to_owned());
    assert_eq!(block.render(at(4, 65534)), Err(RenderError::TooLarge));
    assert_eq!(block.render(at(4, 65533)).unwrap().1, 65535);
}

#[test]
fn errors_have_words() {
    assert_ne!(RenderError::QrEncoding.message(), RenderError::TooLarge.message());
    assert!(!RenderError::QrEncoding.message().is_empty());
    assert!(!RenderError::TooLarge.message().is_empty());
}

#[test]
fn block_ignores_the_size_it_is_offered() {
    let block = SlideItem::Heading("Title".to_owned());
    let small = block.render(area(4, 4, 0, 0)).unwrap();
    let large = block.render(area(4, 4, 500, 500)).unwrap();
    assert_eq!(small, large);
}

#[test]
fn empty_slide_draws_only_its_title() {
    let slide = Slide { title: "talk.md".to_owned(), items: Vec::new() };
    let draws = render_slide(&slide, 80, 24).unwrap();
    assert_eq!(
        draws,
        vec![Draw { area: area(0, 1, 9, 1), widget: Widget::TitleBar("talk.md".to_owned()) }]
    );
}

#[test]
fn blocks_are_stacked_from_row_four() {
    let slide = Slide {
        title: "t".to_owned(),
        items: vec![
            SlideItem::Heading("Title".to_owned()),
            SlideItem::Paragraph("one\ntwo".to_owned()),
            SlideItem::Bullets(strings(&["a", "b"])),
            SlideItem::Code("x\n".to_owned()),
        ],
    };
    let draws = render_slide(&slide, 80, 24).unwrap();
    assert_eq!(draws.len(), 5);
    assert_eq!(draws[0].area, area(0, 1, 3, 1));
    assert_eq!(draws[1].area, area(4, 4, 9, 1));
    assert_eq!(draws[2].area, area(4, 6, 80, 2));
    assert_eq!(draws[3].area, area(4, 10, 6, 2));
    assert_eq!(draws[4].area, area(4, 14, 3, 1));
    assert_eq!(draws[3].widget, Widget::List(strings(&["- a", "- b"])));
}

#[test]
fn blocks_below_the_frame_are_laid_out_all_the_same() {
    let slide = Slide {
        title: "t".to_owned(),
        items: vec![
            SlideItem::Paragraph("1\n2\n3\n4\n5\n6".to_owned()),
            SlideItem::Heading("below".to_owned()),
        ],
    };
    let draws = render_slide(&slide, 5, 3).unwrap();
    assert_eq!(draws.len(), 3);
    assert_eq!(draws[1].area, area(4, 4, 80, 2));
    assert_eq!(draws[2].area, area(4, 12, 9, 1));
}

#[test]
fn one_failing_block_fails_the_slide() {
    let slide = Slide {
        title: "t".to_owned(),
        items: vec![
            SlideItem::Heading("fine".to_owned()),
            SlideItem::QR("a".repeat(3000)),
            SlideItem::Heading("h".repeat(70000)),
        ],
    };
    assert_eq!(render_slide(&slide, 80, 24), Err(RenderError::QrEncoding));
    let slide = Slide {
        title: "t".to_owned(),
        items: vec![SlideItem::Heading("h".repeat(70000)), SlideItem::QR("a".repeat(3000))],
    };
    assert_eq!(render_slide(&slide, 80, 24), Err(RenderError::TooLarge));
}

#[test]
fn title_too_wide_for_the_coordinates() {
    let slide = Slide { title: "t".repeat(65534), items: Vec::new() };
    assert_eq!(render_slide(&slide, 80, 24), Err(RenderError::TooLarge));
    let slide = Slide { title: "t".repeat(65533), items: Vec::new() };
    assert_eq!(render_slide(&slide, 80, 24).unwrap()[0].area.width, 65535);
}

#[test]
fn code_has_one_row_for_each_line() {
    let samples = [
        "", "a", "a\n", "a\nb", "a\r\nb\r\n", "a\r", "\n", "\n\n", "\r\n", "a\n\nb\n", "\r",
        "x\r\n\r\ny\r",
    ];
    for sample in samples {
        let rows = if sample.is_empty() { 1 } else { sample.lines().count() };
        let (draw, next) = SlideItem::Code(sample.to_owned()).render(at(4, 4)).unwrap();
        assert_eq!(usize::from(draw.area.height), rows, "for {:?}", sample);
        assert_eq!(usize::from(next), rows + 6, "for {:?}", sample);
    }
}

#[test]
fn code_width_is_that_of_its_widest_line() {
    let (draw, _) = SlideItem::Code("ab\nabcdef\nabc\n".to_owned()).render(at(4, 4)).unwrap();
    assert_eq!(draw.area.width, 8);
    let (draw, _) = SlideItem::Code("e\u{301}\n".to_owned()).render(at(4, 4)).unwrap();
    assert_eq!(draw.area.width, 3);
}

#[test]
fn longer_data_makes_a_larger_symbol() {
    let small = SlideItem::QR("a".to_owned()).render(at(0, 0)).unwrap();
    let large = SlideItem::QR("a".repeat(200)).render(at(0, 0)).unwrap();
    assert_eq!(small.0.area.width, 2 * small.0.area.height);
    assert_eq!(large.0.area.width, 2 * large.0.area.height);
    assert!(large.0.area.height > small.0.area.height);
    assert_eq!(small.1, small.0.area.height + 2);
}

#[test]
fn frame_without_slides_draws_nothing() {
    let slides = Slides::new("deck".to_owned(), Vec::new());
    assert_eq!(frame_drawings(&slides, 80, 24), Ok(Vec::new()));
    assert_eq!(frame_drawings(&slides, 0, 0), Ok(Vec::new()));
}

#[test]
fn frame_draws_the_slide_at_the_cursor() {
    let first = Slide { title: "deck".to_owned(), items: vec![SlideItem::Heading("one".to_owned())] };
    let second = Slide {
        title: "deck".to_owned(),
        items: vec![SlideItem::Heading("second".to_owned()), SlideItem::Code("x\n".to_owned())],
    };
    let mut slides = Slides::new("deck".to_owned(), vec![first.clone(), second.clone()]);
    assert_eq!(frame_drawings(&slides, 80, 24), render_slide(&first, 80, 24));
    assert_eq!(frame_drawings(&slides, 80, 24).unwrap().len(), 2);
    slides.next();
    assert_eq!(frame_drawings(&slides, 80, 24), render_slide(&second, 80, 24));
    assert_eq!(frame_drawings(&slides, 80, 24).unwrap().len(), 3);
}

#[test]
fn frame_hands_up_the_error_of_its_slide() {
    let bad = Slide { title: "deck".to_owned(), items: vec![SlideItem::QR("a".repeat(3000))] };
    let slides = Slides::new("deck".to_owned(), vec![bad]);
    assert_eq!(frame_drawings(&slides, 80, 24), Err(RenderError::QrEncoding));
}
