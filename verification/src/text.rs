//! Characters and lines of text: what the splitter, the converter and the
//! layout measure and cut.

use vstd::prelude::*;
use vstd::string::*;
use vstd::utf8::encode_utf8;

verus! {

/// Whether `c` is white space: one of the characters to which Unicode gives
/// the property White_Space. They are the tab, the line feed, the vertical
/// tab, the form feed, the carriage return and the space; the next line
/// `U+0085` and the no-break space `U+00A0`; the Ogham space mark `U+1680`;
/// the spaces `U+2000` to `U+200A`; the line and the paragraph separator
/// `U+2028` and `U+2029`; the narrow no-break space `U+202F`, the medium
/// mathematical space `U+205F` and the ideographic space `U+3000`.
pub open spec fn is_whitespace(c: char) -> bool {
    let code = c as u32;
    ||| 0x09 <= code <= 0x0d
    ||| code == 0x20
    ||| code == 0x85
    ||| code == 0xa0
    ||| code == 0x1680
    ||| 0x2000 <= code <= 0x200a
    ||| code == 0x2028
    ||| code == 0x2029
    ||| code == 0x202f
    ||| code == 0x205f
    ||| code == 0x3000
}

/// Decides whether `c` is white space.
pub fn is_space(c: char) -> (b: bool)
    ensures
        b == is_whitespace(c),
{
    let code: u32 = c as u32;
    (0x09 <= code && code <= 0x0d) || code == 0x20 || code == 0x85 || code == 0xa0 || code
        == 0x1680 || (0x2000 <= code && code <= 0x200a) || code == 0x2028 || code == 0x2029
        || code == 0x202f || code == 0x205f || code == 0x3000
}

/// A class of characters that can be stripped from both ends of a text.
#[derive(Clone, Copy, Debug)]
pub enum CharClass {
    /// The hyphen `-`.
    Hyphen,
    /// White space.
    Whitespace,
}

impl CharClass {
    /// Whether `c` belongs to the class.
    pub open spec fn holds(self, c: char) -> bool {
        match self {
            CharClass::Hyphen => c == '-',
            CharClass::Whitespace => is_whitespace(c),
        }
    }

    /// Decides whether `c` belongs to the class.
    pub fn contains(&self, c: char) -> (b: bool)
        ensures
            b == self.holds(c),
    {
        match self {
            CharClass::Hyphen => c == '-',
            CharClass::Whitespace => is_space(c),
        }
    }
}

/// The number of characters at the start of `s` that belong to `class`.
pub open spec fn leading(s: Seq<char>, class: CharClass) -> nat
    decreases s.len(),
{
    if s.len() > 0 && class.holds(s[0]) {
        1 + leading(s.drop_first(), class)
    } else {
        0
    }
}

/// The number of characters at the end of `s` that belong to `class`.
pub open spec fn trailing(s: Seq<char>, class: CharClass) -> nat
    decreases s.len(),
{
    if s.len() > 0 && class.holds(s.last()) {
        1 + trailing(s.drop_last(), class)
    } else {
        0
    }
}

/// `s` without the characters of `class` at its start.
pub open spec fn strip_start(s: Seq<char>, class: CharClass) -> Seq<char> {
    s.skip(leading(s, class) as int)
}

/// `s` without the characters of `class` at its start and at its end.
pub open spec fn strip(s: Seq<char>, class: CharClass) -> Seq<char> {
    let rest = strip_start(s, class);
    rest.take(rest.len() - trailing(rest, class))
}

/// `leading` never counts more characters than there are.
pub proof fn lemma_leading_bound(s: Seq<char>, class: CharClass)
    ensures
        leading(s, class) <= s.len(),
        forall|i: int| 0 <= i < leading(s, class) ==> class.holds(#[trigger] s[i]),
        leading(s, class) < s.len() ==> !class.holds(s[leading(s, class) as int]),
    decreases s.len(),
{
    if s.len() > 0 && class.holds(s[0]) {
        lemma_leading_bound(s.drop_first(), class);
        assert forall|i: int| 0 <= i < leading(s, class) implies class.holds(#[trigger] s[i]) by {
            if i > 0 {
                assert(s[i] == s.drop_first()[i - 1]);
            }
        }
    }
}

/// `leading` counts up to the first character that does not belong to the
/// class.
pub proof fn lemma_leading_is(s: Seq<char>, class: CharClass, count: nat)
    requires
        count <= s.len(),
        forall|i: int| 0 <= i < count ==> class.holds(#[trigger] s[i]),
        count < s.len() ==> !class.holds(s[count as int]),
    ensures
        leading(s, class) == count,
    decreases count,
{
    if count > 0 {
        let rest = s.drop_first();
        assert forall|i: int| 0 <= i < count - 1 implies class.holds(#[trigger] rest[i]) by {
            assert(rest[i] == s[i + 1]);
        }
        lemma_leading_is(rest, class, (count - 1) as nat);
    }
}

/// `trailing` never counts more characters than there are.
pub proof fn lemma_trailing_bound(s: Seq<char>, class: CharClass)
    ensures
        trailing(s, class) <= s.len(),
        forall|i: int|
            s.len() - trailing(s, class) <= i < s.len() ==> class.holds(#[trigger] s[i]),
        trailing(s, class) < s.len() ==> !class.holds(s[s.len() - trailing(s, class) - 1]),
    decreases s.len(),
{
    if s.len() > 0 && class.holds(s.last()) {
        lemma_trailing_bound(s.drop_last(), class);
        assert forall|i: int| s.len() - trailing(s, class) <= i < s.len() implies class.holds(
            #[trigger] s[i],
        ) by {
            if i < s.len() - 1 {
                assert(s[i] == s.drop_last()[i]);
            }
        }
    }
}

/// The bounds of `strip(chars[lo..hi], class)` inside `chars`.
pub fn strip_bounds(chars: &Vec<char>, lo: usize, hi: usize, class: CharClass) -> (bounds: (
    usize,
    usize,
))
    requires
        lo <= hi <= chars.len(),
    ensures
        lo <= bounds.0 <= bounds.1 <= hi,
        bounds.0 - lo == leading(chars@.subrange(lo as int, hi as int), class),
        hi - bounds.1 == trailing(
            strip_start(chars@.subrange(lo as int, hi as int), class),
            class,
        ),
        chars@.subrange(bounds.0 as int, bounds.1 as int) == strip(
            chars@.subrange(lo as int, hi as int),
            class,
        ),
{
    let ghost whole = chars@.subrange(lo as int, hi as int);
    let mut start: usize = lo;
    while start < hi && class.contains(chars[start])
        invariant
            lo <= start <= hi <= chars.len(),
            leading(whole, class) == (start - lo) + leading(
                chars@.subrange(start as int, hi as int),
                class,
            ),
            whole == chars@.subrange(lo as int, hi as int),
        decreases hi - start,
    {
        proof {
            let rest = chars@.subrange(start as int, hi as int);
            assert(rest.drop_first() =~= chars@.subrange(start + 1, hi as int));
        }
        start = start + 1;
    }
    let ghost rest = chars@.subrange(start as int, hi as int);
    assert(strip_start(whole, class) =~= rest);
    let mut end: usize = hi;
    while start < end && class.contains(chars[end - 1])
        invariant
            lo <= start <= end <= hi <= chars.len(),
            rest == chars@.subrange(start as int, hi as int),
            trailing(rest, class) == (hi - end) + trailing(
                chars@.subrange(start as int, end as int),
                class,
            ),
        decreases end - start,
    {
        proof {
            let head = chars@.subrange(start as int, end as int);
            assert(head.drop_last() =~= chars@.subrange(start as int, end - 1));
        }
        end = end - 1;
    }
    (start, end)
}

/// `s` without the white space at its start and at its end.
pub fn trim(s: &str) -> (trimmed: String)
    ensures
        trimmed@ == strip(s@, CharClass::Whitespace),
{
    let chars = chars_of(s);
    let (start, end) = strip_bounds(&chars, 0, chars.len(), CharClass::Whitespace);
    assert(chars@.subrange(0, chars.len() as int) =~= s@);
    s.substring_char(start, end).to_owned()
}

/// The characters of `s`, in order.
pub fn chars_of(s: &str) -> (chars: Vec<char>)
    ensures
        chars@ == s@,
{
    let mut chars: Vec<char> = Vec::new();
    for c in it: s.chars()
        invariant
            chars@ == it.seq().take(it.index()),
            it.seq() == s@,
    {
        chars.push(c);
    }
    chars
}

/// The number of bytes that `s` takes in UTF-8.
pub open spec fn byte_len(s: Seq<char>) -> nat {
    encode_utf8(s).len()
}

/// Counts the bytes that `s` takes in UTF-8.
pub fn byte_count(s: &str) -> (count: usize)
    ensures
        count == byte_len(s@),
{
    s.as_bytes().len()
}

/// The position of the first line feed in `s`, or the length of `s` if it has none.
pub open spec fn line_end(s: Seq<char>) -> nat
    decreases s.len(),
{
    if s.len() == 0 || s[0] == '\n' {
        0
    } else {
        1 + line_end(s.drop_first())
    }
}

/// `line` without the carriage return at its end, if it has one.
pub open spec fn without_cr(line: Seq<char>) -> Seq<char> {
    if line.len() > 0 && line.last() == '\r' {
        line.drop_last()
    } else {
        line
    }
}

/// The lines of `s`. A line ends at a line feed, or at a carriage return
/// followed by a line feed; neither belongs to the line. What follows the last
/// line feed is a line only if it is not empty, and it keeps a carriage return
/// at its end.
pub open spec fn lines_of(s: Seq<char>) -> Seq<Seq<char>>
    decreases s.len(),
{
    let end = line_end(s);
    if s.len() == 0 {
        Seq::empty()
    } else if end >= s.len() {
        seq![s]
    } else {
        seq![without_cr(s.take(end as int))] + lines_of(s.skip(end as int + 1))
    }
}

/// `line_end` finds the first line feed.
pub proof fn lemma_line_end(s: Seq<char>, end: nat)
    requires
        end <= s.len(),
        forall|i: int| 0 <= i < end ==> s[i] != '\n',
        end < s.len() ==> s[end as int] == '\n',
    ensures
        line_end(s) == end,
    decreases end,
{
    if end > 0 {
        let rest = s.drop_first();
        lemma_line_end(rest, (end - 1) as nat);
    }
}

/// The lines of `s`, each as a string of its own.
pub fn split_lines(s: &str) -> (lines: Vec<String>)
    ensures
        lines.deep_view() == lines_of(s@),
{
    let chars = chars_of(s);
    let n = chars.len();
    let mut lines: Vec<String> = Vec::new();
    let mut start: usize = 0;
    let mut i: usize = 0;
    assert(s@.skip(0) =~= s@);
    while i < n
        invariant
            start <= i <= n,
            n == chars.len(),
            chars@ == s@,
            forall|j: int| start <= j < i ==> chars@[j] != '\n',
            lines_of(s@) == lines.deep_view() + lines_of(s@.skip(start as int)),
        decreases n - i,
    {
        if chars[i] == '\n' {
            let end = if start < i && chars[i - 1] == '\r' {
                i - 1
            } else {
                i
            };
            let line = s.substring_char(start, end).to_owned();
            proof {
                let rest = s@.skip(start as int);
                lemma_line_end(rest, (i - start) as nat);
                assert(without_cr(rest.take(i - start)) =~= line@);
                assert(rest.skip(i - start + 1) =~= s@.skip(i + 1));
            }
            lines.push(line);
            start = i + 1;
        }
        i = i + 1;
    }
    if start < n {
        let line = s.substring_char(start, n).to_owned();
        proof {
            let rest = s@.skip(start as int);
            lemma_line_end(rest, (n - start) as nat);
        }
        lines.push(line);
    }
    lines
}

/// The largest of `values`, or 0 if there are none.
pub open spec fn max_of(values: Seq<nat>) -> nat
    decreases values.len(),
{
    if values.len() == 0 {
        0
    } else if max_of(values.drop_last()) >= values.last() {
        max_of(values.drop_last())
    } else {
        values.last()
    }
}

/// The lengths in bytes of `texts`, one for one.
pub open spec fn byte_lens(texts: Seq<Seq<char>>) -> Seq<nat> {
    texts.map_values(|t: Seq<char>| byte_len(t))
}

/// The lengths in characters of `texts`, one for one.
pub open spec fn char_lens(texts: Seq<Seq<char>>) -> Seq<nat> {
    texts.map_values(|t: Seq<char>| t.len())
}

/// The length in bytes of the longest of `texts`, or 0 if there are none.
pub fn longest_bytes(texts: &Vec<String>) -> (longest: usize)
    ensures
        longest == max_of(byte_lens(texts.deep_view())),
{
    let mut longest: usize = 0;
    let ghost lens = byte_lens(texts.deep_view());
    for i in 0..texts.len()
        invariant
            lens == byte_lens(texts.deep_view()),
            longest == max_of(lens.take(i as int)),
    {
        let len = byte_count(texts[i].as_str());
        proof {
            assert(lens.take(i + 1).drop_last() =~= lens.take(i as int));
        }
        if len > longest {
            longest = len;
        }
    }
    assert(lens.take(texts.len() as int) =~= lens);
    longest
}

/// The length in characters of the longest of `texts`, or 0 if there are none.
pub fn longest_chars(texts: &Vec<String>) -> (longest: usize)
    ensures
        longest == max_of(char_lens(texts.deep_view())),
{
    let mut longest: usize = 0;
    let ghost lens = char_lens(texts.deep_view());
    for i in 0..texts.len()
        invariant
            lens == char_lens(texts.deep_view()),
            longest == max_of(lens.take(i as int)),
    {
        let len = texts[i].as_str().unicode_len();
        proof {
            assert(lens.take(i + 1).drop_last() =~= lens.take(i as int));
        }
        if len > longest {
            longest = len;
        }
    }
    assert(lens.take(texts.len() as int) =~= lens);
    longest
}

} // verus!
