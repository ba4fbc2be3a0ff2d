use mdslides::blocks::SlideItem;
use mdslides::slides::{command_for, mkslides, Command, Slide, Slides};

fn slide(name: &str) -> Slide {
    Slide { title: "deck".to_owned(), items: vec![SlideItem::Heading(name.to_owned())] }
}

fn three() -> Slides {
    Slides::new("deck".to_owned(), vec![slide("one"), slide("two"), slide("three")])
}

#[test]
fn new_collection_shows_the_first_slide() {
    let slides = three();
    assert_eq!(slides.len(), 3);
    assert_eq!(slides.index(), 0);
    assert_eq!(slides.title(), "deck");
    assert_eq!(slides.current(), Some(&slide("one")));
}

#[test]
fn empty_collection_has_no_current_slide() {
    let mut slides = Slides::new("deck".to_owned(), Vec::new());
    assert_eq!(slides.current(), None);
    slides.next();
    assert_eq!(slides.index(), 0);
    assert_eq!(slides.current(), None);
    slides.prev();
    assert_eq!(slides.index(), 0);
    assert_eq!(slides.current(), None);
}

#[test]
fn prev_on_the_first_slide_stays() {
    let mut slides = three();
    slides.prev();
    assert_eq!(slides.index(), 0);
    assert_eq!(slides.current(), Some(&slide("one")));
}

#[test]
fn next_on_the_last_slide_stays() {
    let mut slides = three();
    slides.next();
    slides.next();
    assert_eq!(slides.index(), 2);
    slides.next();
    assert_eq!(slides.index(), 2);
    assert_eq!(slides.current(), Some(&slide("three")));
}

#[test]
fn next_and_prev_move_by_one() {
    let mut slides = three();
    slides.next();
    assert_eq!(slides.current(), Some(&slide("two")));
    slides.next();
    assert_eq!(slides.current(), Some(&slide("three")));
    slides.prev();
    assert_eq!(slides.current(), Some(&slide("two")));
    slides.prev();
    assert_eq!(slides.current(), Some(&slide("one")));
}

#[test]
fn single_slide_never_moves() {
    let mut slides = Slides::new("deck".to_owned(), vec![slide("only")]);
    slides.next();
    assert_eq!(slides.index(), 0);
    slides.prev();
    assert_eq!(slides.index(), 0);
}

#[test]
fn cursor_stays_in_range_under_any_commands() {
    let mut slides = three();
    let mut seed: u32 = 12345;
    for _ in 0..500 {
        seed = seed.wrapping_mul(1103515245).wrapping_add(12345);
        if (seed >> 16) % 2 == 0 {
            slides.next();
        } else {
            slides.prev();
        }
        assert!(slides.index() < slides.len());
        assert!(slides.current().is_some());
    }
}

#[test]
fn keys_map_to_commands() {
    assert_eq!(command_for(Some('q'), true), Command::Quit);
    assert_eq!(command_for(Some('h'), true), Command::Previous);
    assert_eq!(command_for(Some('l'), true), Command::Next);
    assert_eq!(command_for(Some('x'), true), Command::Ignore);
    assert_eq!(command_for(Some('Q'), true), Command::Ignore);
    assert_eq!(command_for(None, true), Command::Ignore);
}

#[test]
fn key_presses_are_ignored() {
    assert_eq!(command_for(Some('q'), false), Command::Ignore);
    assert_eq!(command_for(Some('h'), false), Command::Ignore);
    assert_eq!(command_for(Some('l'), false), Command::Ignore);
    assert_eq!(command_for(None, false), Command::Ignore);
}

#[test]
fn commands_move_the_cursor() {
    let mut slides = three();
    assert!(slides.apply(Command::Next));
    assert_eq!(slides.index(), 1);
    assert!(slides.apply(Command::Ignore));
    assert_eq!(slides.index(), 1);
    assert!(slides.apply(Command::Previous));
    assert_eq!(slides.index(), 0);
    assert!(slides.apply(Command::Previous));
    assert_eq!(slides.index(), 0);
    assert!(!slides.apply(Command::Quit));
    assert_eq!(slides.index(), 0);
}

#[test]
fn example_document_makes_two_slides() {
    let mut slides = mkslides("talk.md", "# Title\n\nSome `code` text\n---\n- a\n- b");
    assert_eq!(slides.len(), 2);
    assert_eq!(slides.title(), "talk.md");
    assert_eq!(
        slides.current(),
        Some(&Slide {
            title: "talk.md".to_owned(),
            items: vec![
                SlideItem::Heading("Title".to_owned()),
                SlideItem::Paragraph("Some `code` text".to_owned()),
            ],
        })
    );
    slides.next();
    assert_eq!(
        slides.current(),
        Some(&Slide {
            title: "talk.md".to_owned(),
            items: vec![SlideItem::Bullets(vec!["a".to_owned(), "b".to_owned()])],
        })
    );
}

#[test]
fn empty_document_makes_one_empty_slide() {
    let slides = mkslides("empty.md", "");
    assert_eq!(slides.len(), 1);
    assert_eq!(slides.index(), 0);
    assert_eq!(slides.current(), Some(&Slide { title: "empty.md".to_owned(), items: Vec::new() }));
}

#[test]
fn every_slide_has_the_title_of_the_document() {
    let mut slides = mkslides("same", "# a\n---\n# b\n---\n# c");
    assert_eq!(slides.len(), 3);
    for _ in 0..3 {
        assert_eq!(slides.current().unwrap().title, "same");
        slides.next();
    }
}

#[test]
fn hyphens_inside_a_line_make_no_new_slide() {
    let slides = mkslides("t", "a---b");
    assert_eq!(slides.len(), 1);
    assert_eq!(
        slides.current().unwrap().items,
        vec![SlideItem::Paragraph("a---b".to_owned())]
    );
}

#[test]
fn line_of_six_hyphens_makes_one_new_slide() {
    let mut slides = mkslides("t", "a\n\n------\nb");
    assert_eq!(slides.len(), 2);
    assert_eq!(slides.current().unwrap().items, vec![SlideItem::Paragraph("a".to_owned())]);
    slides.next();
    assert_eq!(slides.current().unwrap().items, vec![SlideItem::Paragraph("b".to_owned())]);
}

#[test]
fn document_with_carriage_returns_is_cut_at_its_separator_lines() {
    let mut slides = mkslides("t", "# a\r\n\r\n---\r\nb\r\n");
    assert_eq!(slides.len(), 2);
    assert_eq!(slides.current().unwrap().items, vec![SlideItem::Heading("a".to_owned())]);
    slides.next();
    assert_eq!(slides.current().unwrap().items, vec![SlideItem::Paragraph("b".to_owned())]);
}
