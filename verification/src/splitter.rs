//! Cuts a document into sections at its separator lines: the lines that
//! hold three or more hyphens and nothing else. A line ends at a line feed,
//! at a carriage return that a line feed follows, or at the end of the
//! document.

use vstd::prelude::*;
use vstd::string::*;
use crate::text::{
    chars_of, leading, lemma_leading_bound, lemma_leading_is, lemma_trailing_bound, strip,
    strip_bounds, strip_start, CharClass,
};

verus! {

/// The least number of hyphens that make a separator line.
pub const SEPARATOR_LEN: usize = 3;

/// Whether a line of `s` ends at `hi`: at the end of `s`, at a line feed, or
/// at a carriage return that a line feed follows.
pub open spec fn line_ends_at(s: Seq<char>, hi: int) -> bool {
    ||| hi == s.len()
    ||| s[hi] == '\n'
    ||| (hi + 1 < s.len() && s[hi] == '\r' && s[hi + 1] == '\n')
}

/// Whether `s[lo..hi]` is a separator line: a whole line of `s`, from the
/// start of `s` or from behind a line feed to where the line ends, that
/// holds three or more hyphens and nothing else.
pub open spec fn separator_line(s: Seq<char>, lo: int, hi: int) -> bool {
    &&& 0 <= lo && lo + 3 <= hi <= s.len()
    &&& (lo == 0 || s[lo - 1] == '\n')
    &&& line_ends_at(s, hi)
    &&& forall|i: int| lo <= i < hi ==> s[i] == '-'
}

/// The end of the hyphens of `s` that start at `lo`.
pub open spec fn end_of_hyphens(s: Seq<char>, lo: int) -> int {
    lo + leading(s.skip(lo), CharClass::Hyphen)
}

/// Whether a separator line of `s` starts at `lo`.
pub open spec fn separator_at(s: Seq<char>, lo: int) -> bool {
    separator_line(s, lo, end_of_hyphens(s, lo))
}

/// The start of the first separator line of `s` at or behind `from`, or the
/// length of `s` if there is none.
pub open spec fn next_separator(s: Seq<char>, from: nat) -> nat
    decreases s.len() - from,
{
    if from >= s.len() {
        s.len()
    } else if separator_at(s, from as int) {
        from
    } else {
        next_separator(s, from + 1)
    }
}

/// The pieces that the separator lines behind `from` cut `s[from..]` into.
/// The hyphens of a separator line belong to no piece; the line feed before
/// them ends the piece before, and what ends their line, the line feed and
/// the carriage return before it, starts the next.
pub open spec fn pieces_from(s: Seq<char>, from: nat) -> Seq<Seq<char>>
    decreases s.len() - from,
{
    let cut = next_separator(s, from);
    let end = end_of_hyphens(s, cut as int);
    if from <= cut && separator_line(s, cut as int, end) {
        seq![s.subrange(from as int, cut as int)] + pieces_from(s, end as nat)
    } else {
        seq![s.skip(from as int)]
    }
}

/// The separator lines of `s` behind `from`, in their order.
pub open spec fn rules_from(s: Seq<char>, from: nat) -> Seq<Seq<char>>
    decreases s.len() - from,
{
    let cut = next_separator(s, from);
    let end = end_of_hyphens(s, cut as int);
    if from <= cut && separator_line(s, cut as int, end) {
        seq![s.subrange(cut as int, end)] + rules_from(s, end as nat)
    } else {
        Seq::empty()
    }
}

/// The starts of the separator lines at which `pieces_from` cuts.
pub open spec fn cuts_from(s: Seq<char>, from: nat) -> Seq<int>
    decreases s.len() - from,
{
    let cut = next_separator(s, from);
    let end = end_of_hyphens(s, cut as int);
    if from <= cut && separator_line(s, cut as int, end) {
        seq![cut as int] + cuts_from(s, end as nat)
    } else {
        Seq::empty()
    }
}

/// The pieces that its separator lines cut a document into.
pub open spec fn pieces(doc: Seq<char>) -> Seq<Seq<char>> {
    pieces_from(doc, 0)
}

/// The separator lines of a document, in their order.
pub open spec fn rules(doc: Seq<char>) -> Seq<Seq<char>> {
    rules_from(doc, 0)
}

/// The section that a piece holds: the piece without the hyphens at its ends,
/// and then without the white space at its ends.
pub open spec fn section_of(piece: Seq<char>) -> Seq<char> {
    strip(strip(piece, CharClass::Hyphen), CharClass::Whitespace)
}

/// The sections of a document, in the order in which they stand in it.
pub open spec fn sections(doc: Seq<char>) -> Seq<Seq<char>> {
    pieces(doc).map_values(|piece: Seq<char>| section_of(piece))
}

/// Whether `text` is three or more hyphens and nothing else.
pub open spec fn is_rule(text: Seq<char>) -> bool {
    text.len() >= 3 && forall|i: int| 0 <= i < text.len() ==> text[i] == '-'
}

/// A separator line ends where its hyphens end: every separator line is
/// found by its start.
pub proof fn lemma_separator_line_is_found(s: Seq<char>, lo: int, hi: int)
    requires
        separator_line(s, lo, hi),
    ensures
        hi == end_of_hyphens(s, lo),
        separator_at(s, lo),
{
    let rest = s.skip(lo);
    lemma_leading_is(rest, CharClass::Hyphen, (hi - lo) as nat);
}

/// `next_separator` finds the first separator line at or behind `from`.
pub proof fn lemma_next_separator(s: Seq<char>, from: nat)
    requires
        from <= s.len(),
    ensures
        from <= next_separator(s, from) <= s.len(),
        next_separator(s, from) < s.len() ==> separator_at(s, next_separator(s, from) as int),
        forall|lo: int| from <= lo < next_separator(s, from) ==> !separator_at(s, lo),
    decreases s.len() - from,
{
    if from < s.len() && !separator_at(s, from as int) {
        lemma_next_separator(s, from + 1);
    }
}

/// Where no separator line starts between `from` and `to`, the next one
/// behind `from` is the next one behind `to`.
pub proof fn lemma_no_separator_between(s: Seq<char>, from: nat, to: nat)
    requires
        from <= to <= s.len(),
        forall|lo: int| from <= lo < to ==> !separator_at(s, lo),
    ensures
        next_separator(s, from) == next_separator(s, to),
    decreases to - from,
{
    if from < to {
        lemma_no_separator_between(s, from + 1, to);
    }
}

/// The sections of `doc`: the document is cut at each separator line, a line
/// of three or more hyphens and nothing else, and each piece loses the
/// hyphens and then the white space at its ends. The line may end with a
/// line feed, with a carriage return and a line feed, or with the document.
/// A document without a separator line, the empty one too, is one section.
pub fn split_sections(doc: &str) -> (parts: Vec<String>)
    ensures
        parts.deep_view() == sections(doc@),
        parts.len() == pieces(doc@).len(),
        parts.len() >= 1,
{
    let chars = chars_of(doc);
    let n = chars.len();
    let mut parts: Vec<String> = Vec::new();
    let mut piece_start: usize = 0;
    let mut line_start: usize = 0;
    let mut more = true;
    let ghost mut done: Seq<Seq<char>> = Seq::empty();
    while more
        invariant
            n == chars.len(),
            chars@ == doc@,
            piece_start <= n,
            line_start <= n,
            more ==> piece_start <= line_start,
            more ==> line_start == 0 || chars@[line_start - 1] == '\n',
            more ==> next_separator(doc@, piece_start as nat) == next_separator(
                doc@,
                line_start as nat,
            ),
            !more ==> pieces_from(doc@, piece_start as nat) == seq![doc@.skip(piece_start as int)],
            pieces(doc@) == done + pieces_from(doc@, piece_start as nat),
            parts.deep_view() == done.map_values(|piece: Seq<char>| section_of(piece)),
        decreases n - line_start + if more { 1int } else { 0int },
    {
        let mut end: usize = line_start;
        while end < n && chars[end] == '-'
            invariant
                line_start <= end <= n,
                n == chars.len(),
                forall|j: int| line_start <= j < end ==> chars@[j] == '-',
            decreases n - end,
        {
            end = end + 1;
        }
        let ends_line = end == n || chars[end] == '\n' || (n - end > 1 && chars[end] == '\r'
            && chars[end + 1] == '\n');
        let mut next: usize = end;
        while next < n && chars[next] != '\n'
            invariant
                line_start <= end <= next <= n,
                n == chars.len(),
                forall|j: int| line_start <= j < end ==> chars@[j] == '-',
                forall|j: int| end <= j < next ==> chars@[j] != '\n',
            decreases n - next,
        {
            next = next + 1;
        }
        proof {
            lemma_leading_is(
                doc@.skip(line_start as int),
                CharClass::Hyphen,
                (end - line_start) as nat,
            );
        }
        if ends_line && end - line_start >= SEPARATOR_LEN {
            let part = section_between(doc, &chars, piece_start, line_start);
            proof {
                let piece = doc@.subrange(piece_start as int, line_start as int);
                assert(done.push(piece).map_values(|piece: Seq<char>| section_of(piece))
                    =~= parts.deep_view().push(section_of(piece)));
                done = done.push(piece);
            }
            parts.push(part);
            piece_start = end;
            proof {
                if next < n {
                    lemma_no_separator_between(doc@, end as nat, (next + 1) as nat);
                }
            }
        } else {
            proof {
                if next < n {
                    lemma_no_separator_between(doc@, line_start as nat, (next + 1) as nat);
                } else {
                    lemma_no_separator_between(doc@, line_start as nat, n as nat);
                }
            }
        }
        if next == n {
            more = false;
        } else {
            line_start = next + 1;
        }
    }
    let part = section_between(doc, &chars, piece_start, n);
    proof {
        let piece = doc@.skip(piece_start as int);
        assert(done.push(piece) =~= done + seq![piece]);
        assert(done.push(piece).map_values(|piece: Seq<char>| section_of(piece))
            =~= parts.deep_view().push(section_of(piece)));
    }
    parts.push(part);
    parts
}

/// The section held by the piece `doc[lo..hi]`.
fn section_between(doc: &str, chars: &Vec<char>, lo: usize, hi: usize) -> (part: String)
    requires
        chars@ == doc@,
        lo <= hi <= chars.len(),
    ensures
        part@ == section_of(doc@.subrange(lo as int, hi as int)),
{
    let (inner_lo, inner_hi) = strip_bounds(chars, lo, hi, CharClass::Hyphen);
    let (start, end) = strip_bounds(chars, inner_lo, inner_hi, CharClass::Whitespace);
    doc.substring_char(start, end).to_owned()
}

/// What the splitter took away around one section.
pub struct Margins {
    /// The characters taken away before the section.
    pub before: Seq<char>,
    /// The characters taken away after the section.
    pub after: Seq<char>,
}

/// Whether every character of `s` is a hyphen or white space.
pub open spec fn is_padding(s: Seq<char>) -> bool {
    forall|i: int|
        0 <= i < s.len() ==> CharClass::Hyphen.holds(#[trigger] s[i])
            || CharClass::Whitespace.holds(s[i])
}

/// What was taken away from `piece` to get its section.
pub open spec fn margins_of(piece: Seq<char>) -> Margins {
    let inner = strip(piece, CharClass::Hyphen);
    let hyphens_before = leading(piece, CharClass::Hyphen) as int;
    let space_before = leading(inner, CharClass::Whitespace) as int;
    let kept = section_of(piece).len() as int;
    Margins {
        before: piece.take(hyphens_before + space_before),
        after: piece.skip(hyphens_before + space_before + kept),
    }
}

/// `texts` written one after the other, with one of `rules` between each
/// two: the first text, the first rule, the second text, and so on.
pub open spec fn joined(texts: Seq<Seq<char>>, rules: Seq<Seq<char>>) -> Seq<char>
    decreases texts.len(),
{
    if texts.len() == 0 {
        Seq::empty()
    } else if texts.len() == 1 || rules.len() == 0 {
        texts[0]
    } else {
        texts[0] + rules[0] + joined(texts.drop_first(), rules.drop_first())
    }
}

/// A piece is its section between its two margins, and the margins hold
/// nothing but hyphens and white space.
pub proof fn lemma_piece_is_padded_section(piece: Seq<char>)
    ensures
        piece == margins_of(piece).before + section_of(piece) + margins_of(piece).after,
        is_padding(margins_of(piece).before),
        is_padding(margins_of(piece).after),
{
    let hyphen = CharClass::Hyphen;
    let space = CharClass::Whitespace;
    let a = leading(piece, hyphen) as int;
    lemma_leading_bound(piece, hyphen);
    let rest = strip_start(piece, hyphen);
    lemma_trailing_bound(rest, hyphen);
    let inner = strip(piece, hyphen);
    let b = a + inner.len();
    let c = leading(inner, space) as int;
    lemma_leading_bound(inner, space);
    let inner_rest = strip_start(inner, space);
    lemma_trailing_bound(inner_rest, space);
    let kept = section_of(piece);
    let d = a + c + kept.len();
    let m = margins_of(piece);
    assert forall|i: int| 0 <= i < m.before.len() implies hyphen.holds(#[trigger] m.before[i])
        || space.holds(m.before[i]) by {
        if i >= a {
            assert(space.holds(inner[i - a]));
        }
    }
    assert forall|i: int| 0 <= i < m.after.len() implies hyphen.holds(#[trigger] m.after[i])
        || space.holds(m.after[i]) by {
        let at = d + i;
        if at < b {
            assert(space.holds(inner_rest[at - a - c]));
        } else {
            assert(hyphen.holds(rest[at - a]));
        }
    }
}

/// The pieces of `s` behind `from`, with its separator lines between them,
/// are `s` behind `from`; there is one separator line between each two
/// pieces, one for each cut, and each holds three or more hyphens and nothing
/// else.
pub proof fn lemma_pieces_rebuild_from(s: Seq<char>, from: nat)
    requires
        from <= s.len(),
    ensures
        pieces_from(s, from).len() == rules_from(s, from).len() + 1,
        rules_from(s, from).len() == cuts_from(s, from).len(),
        forall|i: int| 0 <= i < rules_from(s, from).len() ==> is_rule(#[trigger] rules_from(s, from)[i]),
        joined(pieces_from(s, from), rules_from(s, from)) == s.skip(from as int),
    decreases s.len() - from,
{
    let cut = next_separator(s, from);
    let end = end_of_hyphens(s, cut as int);
    lemma_next_separator(s, from);
    if separator_line(s, cut as int, end) {
        lemma_pieces_rebuild_from(s, end as nat);
        let all = pieces_from(s, from);
        let lines = rules_from(s, from);
        assert(all.drop_first() =~= pieces_from(s, end as nat));
        assert(lines.drop_first() =~= rules_from(s, end as nat));
    }
}

/// A document is cut at every one of its separator lines, and nowhere else.
pub proof fn lemma_cut_at_every_separator_line(s: Seq<char>, from: nat, lo: int, hi: int)
    requires
        from <= lo,
        separator_line(s, lo, hi),
    ensures
        cuts_from(s, from).contains(lo),
        forall|i: int|
            0 <= i < cuts_from(s, from).len() ==> separator_at(s, #[trigger] cuts_from(s, from)[i]),
    decreases s.len() - from,
{
    lemma_separator_line_is_found(s, lo, hi);
    lemma_next_separator(s, from);
    lemma_cuts_are_separator_lines(s, from);
    let cut = next_separator(s, from);
    let end = end_of_hyphens(s, cut as int);
    let cuts = cuts_from(s, from);
    if lo == cut {
        assert(cuts[0] == lo);
    } else {
        assert(lo > end);
        lemma_cut_at_every_separator_line(s, end as nat, lo, hi);
        let rest = cuts_from(s, end as nat);
        let at = choose|i: int| 0 <= i < rest.len() && rest[i] == lo;
        assert(cuts[at + 1] == lo);
    }
}

/// Every cut is at a separator line.
pub proof fn lemma_cuts_are_separator_lines(s: Seq<char>, from: nat)
    ensures
        forall|i: int|
            0 <= i < cuts_from(s, from).len() ==> separator_at(s, #[trigger] cuts_from(s, from)[i]),
    decreases s.len() - from,
{
    let cut = next_separator(s, from);
    let end = end_of_hyphens(s, cut as int);
    if from <= cut && separator_line(s, cut as int, end) {
        lemma_cuts_are_separator_lines(s, end as nat);
        let cuts = cuts_from(s, from);
        assert forall|i: int| 0 <= i < cuts.len() implies separator_at(s, #[trigger] cuts[i]) by {
            if i > 0 {
                assert(cuts[i] == cuts_from(s, end as nat)[i - 1]);
            }
        }
    }
}

/// A document without a separator line is one section.
pub proof fn lemma_document_without_separator_is_one_section(doc: Seq<char>)
    requires
        forall|lo: int, hi: int| !separator_line(doc, lo, hi),
    ensures
        sections(doc) == seq![section_of(doc)],
{
    assert(doc.skip(0) =~= doc);
}

/// The empty document is one empty section.
pub proof fn lemma_empty_document_is_one_section()
    ensures
        sections(Seq::<char>::empty()) == seq![Seq::<char>::empty()],
{
    let empty = Seq::<char>::empty();
    assert(empty.skip(0) =~= empty);
}

/// Splitting loses nothing but padding: with what was taken away around each
/// section put back, and the separator lines between them, the sections of a
/// document are the document again. There is one separator line between each
/// two sections.
pub proof fn lemma_sections_rebuild_document(doc: Seq<char>)
    ensures
        sections(doc).len() == pieces(doc).len(),
        sections(doc).len() == rules(doc).len() + 1,
        forall|i: int| 0 <= i < rules(doc).len() ==> is_rule(#[trigger] rules(doc)[i]),
        joined(
            Seq::new(
                sections(doc).len(),
                |i: int|
                    margins_of(pieces(doc)[i]).before + sections(doc)[i] + margins_of(
                        pieces(doc)[i],
                    ).after,
            ),
            rules(doc),
        ) == doc,
        forall|i: int|
            0 <= i < sections(doc).len() ==> is_padding(
                #[trigger] margins_of(pieces(doc)[i]).before,
            ) && is_padding(margins_of(pieces(doc)[i]).after),
{
    lemma_pieces_rebuild_from(doc, 0);
    let all = pieces(doc);
    let padded = Seq::new(
        sections(doc).len(),
        |i: int| margins_of(all[i]).before + sections(doc)[i] + margins_of(all[i]).after,
    );
    assert forall|i: int| 0 <= i < all.len() implies padded[i] == all[i] && is_padding(
        #[trigger] margins_of(all[i]).before,
    ) && is_padding(margins_of(all[i]).after) by {
        lemma_piece_is_padded_section(all[i]);
    }
    assert(padded =~= all);
}

} // verus!
