//! The slides of a document, the cursor that selects one of them, and the
//! commands that move it.

use vstd::prelude::*;
use vstd::string::*;
use crate::blocks::{Block, SlideItem};
use crate::convert::{blocks_of, section_blocks};
use crate::splitter::{sections, split_sections};
use crate::tree::{markdown_tree, walk};

verus! {

/// One slide: a title and the blocks shown below it, from top to bottom.
#[derive(Debug, Clone, PartialEq, Eq)]
pub struct Slide {
    pub title: String,
    pub items: Vec<SlideItem>,
}

/// The model of a [`Slide`].
pub struct SlideModel {
    pub title: Seq<char>,
    pub blocks: Seq<Block>,
}

impl DeepView for Slide {
    type V = SlideModel;

    open spec fn deep_view(&self) -> SlideModel {
        SlideModel { title: self.title@, blocks: self.items.deep_view() }
    }
}

/// What a key asks for.
#[derive(Clone, Copy, Debug, PartialEq, Eq, Structural)]
pub enum Command {
    /// Leave the show.
    Quit,
    /// Go to the slide before.
    Previous,
    /// Go to the slide after.
    Next,
    /// Do nothing.
    Ignore,
}

/// The command of a key event. Only the release of a key counts, and only of
/// the keys `q`, `h` and `l`; `key` is `None` for a key that is no character.
pub open spec fn command_of(key: Option<char>, released: bool) -> Command {
    if released && key == Some('q') {
        Command::Quit
    } else if released && key == Some('h') {
        Command::Previous
    } else if released && key == Some('l') {
        Command::Next
    } else {
        Command::Ignore
    }
}

/// Where the cursor of `count` slides goes from `cursor` on `command`: one
/// back but not below 0, one forward but not beyond the last slide.
pub open spec fn moved(cursor: nat, count: nat, command: Command) -> nat {
    match command {
        Command::Previous => if cursor > 0 {
            (cursor - 1) as nat
        } else {
            0
        },
        Command::Next => if cursor + 1 < count {
            cursor + 1
        } else {
            cursor
        },
        _ => cursor,
    }
}

/// Where the cursor is after `commands`, taken from the first to the last.
pub open spec fn moved_by(cursor: nat, count: nat, commands: Seq<Command>) -> nat
    decreases commands.len(),
{
    if commands.len() == 0 {
        cursor
    } else {
        moved(moved_by(cursor, count, commands.drop_last()), count, commands.last())
    }
}

/// The slides that a document makes under `title`: one for each section, all
/// with the same title, each with the blocks of its section.
pub open spec fn deck_of(title: Seq<char>, doc: Seq<char>) -> Seq<SlideModel> {
    sections(doc).map_values(
        |section: Seq<char>| SlideModel { title, blocks: blocks_of(walk(markdown_tree(section))) },
    )
}

/// Decides the command of a key event.
pub fn command_for(key: Option<char>, released: bool) -> (command: Command)
    ensures
        command == command_of(key, released),
{
    if !released {
        return Command::Ignore;
    }
    match key {
        Some(c) => {
            if c == 'q' {
                Command::Quit
            } else if c == 'h' {
                Command::Previous
            } else if c == 'l' {
                Command::Next
            } else {
                Command::Ignore
            }
        },
        None => Command::Ignore,
    }
}

/// The slides of one document and the cursor that selects the slide on
/// display.
#[derive(Debug)]
pub struct Slides {
    title: String,
    slides: Vec<Slide>,
    current_idx: usize,
}

impl Slides {
    /// The cursor names a slide, or is 0 where there is none.
    #[verifier::type_invariant]
    pub closed spec fn cursor_in_range(&self) -> bool {
        self.current_idx == 0 || self.current_idx < self.slides.len()
    }

    /// The slides, in the order of their sections.
    pub closed spec fn deck(&self) -> Seq<SlideModel> {
        self.slides.deep_view()
    }

    /// The number of slides.
    pub open spec fn count(&self) -> nat {
        self.deck().len()
    }

    /// The position of the cursor.
    pub closed spec fn cursor(&self) -> nat {
        self.current_idx as nat
    }

    /// The title of the document.
    pub closed spec fn name(&self) -> Seq<char> {
        self.title@
    }

    /// A collection of `slides` with the cursor on the first.
    pub fn new(title: String, slides: Vec<Slide>) -> (made: Slides)
        ensures
            made.name() == title@,
            made.deck() == slides.deep_view(),
            made.cursor() == 0,
    {
        Slides { title, slides, current_idx: 0 }
    }

    /// The slide at the cursor, or `None` where there is no slide.
    pub fn current(&self) -> (slide: Option<&Slide>)
        ensures
            match slide {
                Some(shown) => self.cursor() < self.count() && shown.deep_view()
                    == self.deck()[self.cursor() as int],
                None => self.count() == 0,
            },
    {
        proof {
            use_type_invariant(self);
        }
        if self.current_idx < self.slides.len() {
            Some(&self.slides[self.current_idx])
        } else {
            None
        }
    }

    /// Moves the cursor one slide forward; on the last slide it stays.
    pub fn next(&mut self)
        ensures
            final(self).cursor() == moved(old(self).cursor(), old(self).count(), Command::Next),
            old(self).cursor() + 1 >= old(self).count() ==> final(self).cursor() == old(
                self,
            ).cursor(),
            final(self).deck() == old(self).deck(),
            final(self).name() == old(self).name(),
    {
        proof {
            use_type_invariant(&*self);
        }
        if self.current_idx + 1 < self.slides.len() {
            self.current_idx = self.current_idx + 1;
        }
    }

    /// Moves the cursor one slide back; on the first slide it stays.
    pub fn prev(&mut self)
        ensures
            final(self).cursor() == moved(
                old(self).cursor(),
                old(self).count(),
                Command::Previous,
            ),
            old(self).cursor() == 0 ==> final(self).cursor() == 0,
            final(self).deck() == old(self).deck(),
            final(self).name() == old(self).name(),
    {
        proof {
            use_type_invariant(&*self);
        }
        if self.current_idx > 0 {
            self.current_idx = self.current_idx - 1;
        }
    }

    /// Carries out `command` and says whether the show goes on: it ends on
    /// `Quit` alone. Only the cursor changes.
    pub fn apply(&mut self, command: Command) -> (goes_on: bool)
        ensures
            goes_on == (command != Command::Quit),
            final(self).cursor() == moved(old(self).cursor(), old(self).count(), command),
            final(self).deck() == old(self).deck(),
            final(self).name() == old(self).name(),
    {
        match command {
            Command::Quit => false,
            Command::Previous => {
                self.prev();
                true
            },
            Command::Next => {
                self.next();
                true
            },
            Command::Ignore => true,
        }
    }

    /// The number of slides.
    pub fn len(&self) -> (count: usize)
        ensures
            count == self.count(),
    {
        self.slides.len()
    }

    /// The position of the cursor: that of a slide, or 0 where there is none.
    pub fn index(&self) -> (cursor: usize)
        ensures
            cursor == self.cursor(),
            self.count() > 0 ==> cursor < self.count(),
            self.count() == 0 ==> cursor == 0,
    {
        proof {
            use_type_invariant(self);
        }
        self.current_idx
    }

    /// The title of the document.
    pub fn title(&self) -> (title: &String)
        ensures
            title@ == self.name(),
    {
        &self.title
    }
}

/// The slides of the document `doc`, all under `title`, with the cursor on
/// the first: the document is cut into sections, and each section is parsed
/// and converted into the blocks of one slide.
pub fn mkslides(title: &str, doc: &str) -> (slides: Slides)
    ensures
        slides.name() == title@,
        slides.deck() == deck_of(title@, doc@),
        slides.cursor() == 0,
        slides.count() >= 1,
{
    let parts = split_sections(doc);
    let mut made: Vec<Slide> = Vec::new();
    let ghost all = sections(doc@);
    let ghost model = |section: Seq<char>|
        SlideModel { title: title@, blocks: blocks_of(walk(markdown_tree(section))) };
    for i in 0..parts.len()
        invariant
            all == parts.deep_view(),
            model == |section: Seq<char>|
                (SlideModel { title: title@, blocks: blocks_of(walk(markdown_tree(section))) }),
            made.deep_view() == all.take(i as int).map_values(model),
    {
        let slide = Slide { title: title.to_owned(), items: section_blocks(parts[i].as_str()) };
        made.push(slide);
        assert(all.take(i + 1).map_values(model) =~= all.take(i as int).map_values(model).push(
            model(all[i as int]),
        ));
    }
    Slides::new(title.to_owned(), made)
}

/// Whatever the commands, the cursor of a collection that has slides names
/// one of them.
pub proof fn lemma_cursor_stays_in_range(cursor: nat, count: nat, commands: Seq<Command>)
    requires
        cursor < count,
    ensures
        moved_by(cursor, count, commands) < count,
    decreases commands.len(),
{
    if commands.len() > 0 {
        lemma_cursor_stays_in_range(cursor, count, commands.drop_last());
    }
}

/// Going back from the first slide and going on from the last one change
/// nothing.
pub proof fn lemma_ends_hold(count: nat)
    requires
        count > 0,
    ensures
        moved(0, count, Command::Previous) == 0,
        moved((count - 1) as nat, count, Command::Next) == count - 1,
{
}

} // verus!
