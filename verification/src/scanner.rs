//! The character-level cursor under the suite parser: character classes,
//! line and word boundaries, and places in the text.

use crate::atest::Location;
use vstd::prelude::*;
use vstd::std_specs::iter::IteratorSpec;
use vstd::utf8::encode_utf8;

verus! {

/// `String::push` of the standard library: the text afterwards is the text before with
/// the character appended, as its documentation says.
pub assume_specification[ String::push ](s: &mut String, c: char)
    ensures
        final(s)@ == old(s)@.push(c),
;

/// White space: the characters that separate words and are passed over between blocks.
/// They are the characters that Unicode lists as white space.
pub open spec fn is_space(c: char) -> bool {
    ||| '\u{9}' <= c <= '\u{d}'
    ||| c == ' '
    ||| c == '\u{85}'
    ||| c == '\u{a0}'
    ||| c == '\u{1680}'
    ||| '\u{2000}' <= c <= '\u{200a}'
    ||| c == '\u{2028}'
    ||| c == '\u{2029}'
    ||| c == '\u{202f}'
    ||| c == '\u{205f}'
    ||| c == '\u{3000}'
}

/// The decimal digits of ASCII.
pub open spec fn is_digit(c: char) -> bool {
    '0' <= c <= '9'
}

/// The characters of an identifier: ASCII letters and digits, `_` and `-`.
pub open spec fn is_id_char(c: char) -> bool {
    ||| 'a' <= c <= 'z'
    ||| 'A' <= c <= 'Z'
    ||| '0' <= c <= '9'
    ||| c == '_'
    ||| c == '-'
}

/// A name of a script or a test: one or more identifier characters.
pub open spec fn is_identifier(name: Seq<char>) -> bool {
    &&& name.len() > 0
    &&& forall|i: int| 0 <= i < name.len() ==> is_id_char(#[trigger] name[i])
}

/// A line that holds white space only.
pub open spec fn is_blank(line: Seq<char>) -> bool {
    forall|i: int| 0 <= i < line.len() ==> is_space(#[trigger] line[i])
}

/// Where the line that holds `pos` ends: at its newline, or at the end of the text.
pub open spec fn line_end(src: Seq<char>, pos: int) -> int
    decreases src.len() - pos,
{
    if pos < 0 || pos >= src.len() || src[pos] == '\n' {
        pos
    } else {
        line_end(src, pos + 1)
    }
}

/// Where the line after the one that holds `pos` starts.
pub open spec fn next_line(src: Seq<char>, pos: int) -> int {
    let end = line_end(src, pos);
    if 0 <= end < src.len() {
        end + 1
    } else {
        end
    }
}

/// Where the word that starts at `pos` ends: at the next white space, or at the end of the text.
pub open spec fn word_end(src: Seq<char>, pos: int) -> int
    decreases src.len() - pos,
{
    if pos < 0 || pos >= src.len() || is_space(src[pos]) {
        pos
    } else {
        word_end(src, pos + 1)
    }
}

/// The number of newlines before `pos`.
pub open spec fn line_of(src: Seq<char>, pos: int) -> nat
    decreases pos,
{
    if pos <= 0 || pos > src.len() {
        0
    } else if src[pos - 1] == '\n' {
        line_of(src, pos - 1) + 1
    } else {
        line_of(src, pos - 1)
    }
}

/// The number of characters between the start of its line and `pos`.
pub open spec fn column_of(src: Seq<char>, pos: int) -> nat
    decreases pos,
{
    if pos <= 0 || pos > src.len() || src[pos - 1] == '\n' {
        0
    } else {
        column_of(src, pos - 1) + 1
    }
}

/// The place of `pos` in `src`.
pub open spec fn location_of(src: Seq<char>, pos: int) -> Location {
    Location { line: line_of(src, pos) as usize, column: column_of(src, pos) as usize }
}

/// `line_end` stays on the line: nothing between `pos` and it is a newline, and it
/// stands on a newline or at the end of the text.
pub proof fn lemma_line_end(src: Seq<char>, pos: int)
    requires
        0 <= pos <= src.len(),
    ensures
        pos <= line_end(src, pos) <= src.len(),
        forall|i: int| pos <= i < line_end(src, pos) ==> src[i] != '\n',
        line_end(src, pos) < src.len() ==> src[line_end(src, pos)] == '\n',
        pos <= next_line(src, pos) <= src.len(),
        pos < src.len() ==> pos < next_line(src, pos),
    decreases src.len() - pos,
{
    if pos < src.len() && src[pos] != '\n' {
        lemma_line_end(src, pos + 1);
    }
}

/// The end of a line is the first newline at or after the position, or the end of the
/// text where none follows: any position of which this holds is `line_end`.
pub proof fn law_line_end(src: Seq<char>, pos: int, end: int)
    requires
        0 <= pos <= end <= src.len(),
        forall|i: int| pos <= i < end ==> src[i] != '\n',
        end < src.len() ==> src[end] == '\n',
    ensures
        line_end(src, pos) == end,
    decreases end - pos,
{
    if pos < end {
        law_line_end(src, pos + 1, end);
    }
}

/// `word_end` stays in the word: nothing between `pos` and it is white space, and it
/// stands on white space or at the end of the text.
pub proof fn lemma_word_end(src: Seq<char>, pos: int)
    requires
        0 <= pos <= src.len(),
    ensures
        pos <= word_end(src, pos) <= src.len(),
        forall|i: int| pos <= i < word_end(src, pos) ==> !is_space(src[i]),
        word_end(src, pos) < src.len() ==> is_space(src[word_end(src, pos)]),
    decreases src.len() - pos,
{
    if pos < src.len() && !is_space(src[pos]) {
        lemma_word_end(src, pos + 1);
    }
}

/// The end of a word is the first white space at or after the position, or the end of
/// the text where none follows: any position of which this holds is `word_end`.
pub proof fn law_word_end(src: Seq<char>, pos: int, end: int)
    requires
        0 <= pos <= end <= src.len(),
        forall|i: int| pos <= i < end ==> !is_space(src[i]),
        end < src.len() ==> is_space(src[end]),
    ensures
        word_end(src, pos) == end,
    decreases end - pos,
{
    if pos < end {
        law_word_end(src, pos + 1, end);
    }
}

/// A place never lies beyond its position: both counts are at most `pos`.
pub proof fn lemma_location_bounds(src: Seq<char>, pos: int)
    requires
        0 <= pos <= src.len(),
    ensures
        line_of(src, pos) <= pos,
        column_of(src, pos) <= pos,
    decreases pos,
{
    if pos > 0 {
        lemma_location_bounds(src, pos - 1);
    }
}

/// Whether the character is white space.
pub fn is_whitespace(c: char) -> (b: bool)
    ensures
        b == is_space(c),
{
    ('\u{9}' <= c && c <= '\u{d}') || c == ' ' || c == '\u{85}' || c == '\u{a0}' || c == '\u{1680}'
        || ('\u{2000}' <= c && c <= '\u{200a}') || c == '\u{2028}' || c == '\u{2029}' || c
        == '\u{202f}' || c == '\u{205f}' || c == '\u{3000}'
}

/// Whether the character is a decimal digit of ASCII.
pub fn is_ascii_digit(c: char) -> (b: bool)
    ensures
        b == is_digit(c),
{
    '0' <= c && c <= '9'
}

/// Whether the character may stand in an identifier.
pub fn is_identifier_char(c: char) -> (b: bool)
    ensures
        b == is_id_char(c),
{
    ('a' <= c && c <= 'z') || ('A' <= c && c <= 'Z') || ('0' <= c && c <= '9') || c == '_' || c
        == '-'
}

/// The characters of a text, in order.
pub fn to_chars(source: &str) -> (chars: Vec<char>)
    ensures
        chars@ == source@,
{
    broadcast use vstd::string::group_string_axioms;

    let mut chars: Vec<char> = Vec::new();
    let mut rest = source.chars();
    loop
        invariant
            chars@ + rest.remaining() == source@,
            rest.decrease() is Some,
        ensures
            chars@ == source@,
        decreases rest.decrease()->0,
    {
        let ghost before = rest;
        match rest.next() {
            Some(c) => {
                proof {
                    assert(chars@.push(c) + before.remaining().drop_first() =~= chars@
                        + before.remaining());
                }
                chars.push(c);
            },
            None => {
                proof {
                    assert(chars@ + before.remaining() =~= chars@);
                }
                break ;
            },
        }
    }
    chars
}

/// Reads to the end of the line: returns where the line ends and where the next one starts.
pub fn consume_line(src: &Vec<char>, pos: usize) -> (r: (usize, usize))
    ensures
        r.0 == line_end(src@, pos as int),
        r.1 == next_line(src@, pos as int),
        pos <= src@.len() ==> pos <= r.0 <= r.1 <= src@.len(),
{
    if pos >= src.len() {
        return (pos, pos);
    }
    let mut end: usize = pos;
    while end < src.len() && src[end] != '\n'
        invariant
            pos <= end <= src@.len(),
            line_end(src@, pos as int) == line_end(src@, end as int),
        decreases src@.len() - end,
    {
        end = end + 1;
    }
    proof {
        lemma_line_end(src@, pos as int);
    }
    if end < src.len() {
        (end, end + 1)
    } else {
        (end, end)
    }
}

/// Reads to the end of the word: returns where the word that starts at `pos` ends.
pub fn consume_word(src: &Vec<char>, pos: usize) -> (end: usize)
    ensures
        end == word_end(src@, pos as int),
        pos <= src@.len() ==> pos <= end <= src@.len(),
{
    if pos >= src.len() {
        return pos;
    }
    let mut end: usize = pos;
    while end < src.len() && !is_whitespace(src[end])
        invariant
            pos <= end <= src@.len(),
            word_end(src@, pos as int) == word_end(src@, end as int),
        decreases src@.len() - end,
    {
        end = end + 1;
    }
    end
}

/// A position in a text together with its place, kept so that the places of later
/// positions are found without counting from the start again.
pub(crate) struct Cursor {
    pos: usize,
    location: Location,
}

impl Cursor {
    /// Whether the cursor stands in `src` and holds the place of its position.
    pub(crate) closed spec fn tracks(&self, src: Seq<char>) -> bool {
        &&& self.pos <= src.len()
        &&& self.location == location_of(src, self.pos as int)
        &&& self.location.line == line_of(src, self.pos as int)
        &&& self.location.column == column_of(src, self.pos as int)
    }

    /// A cursor at the start of a text.
    pub(crate) fn new() -> (cursor: Cursor)
        ensures
            forall|src: Seq<char>| #[trigger] cursor.tracks(src),
    {
        Cursor { pos: 0, location: Location { line: 0, column: 0 } }
    }

    /// Moves the cursor to `pos` and returns the place of `pos`. A position beyond the
    /// text has the place of the start.
    pub(crate) fn seek(&mut self, src: &Vec<char>, pos: usize) -> (loc: Location)
        requires
            old(self).tracks(src@),
        ensures
            final(self).tracks(src@),
            loc == location_of(src@, pos as int),
    {
        if pos > src.len() {
            self.pos = 0;
            self.location = Location { line: 0, column: 0 };
            return self.location;
        }
        if pos < self.pos {
            self.pos = 0;
            self.location = Location { line: 0, column: 0 };
        }
        let mut line: usize = self.location.line;
        let mut column: usize = self.location.column;
        let mut i: usize = self.pos;
        proof {
            lemma_location_bounds(src@, i as int);
        }
        while i < pos
            invariant
                i <= pos <= src@.len(),
                line == line_of(src@, i as int),
                column == column_of(src@, i as int),
                line <= i,
                column <= i,
            decreases pos - i,
        {
            if src[i] == '\n' {
                line = line + 1;
                column = 0;
            } else {
                column = column + 1;
            }
            i = i + 1;
        }
        self.pos = pos;
        self.location = Location { line, column };
        self.location
    }
}

/// The place of `pos` in the text: its line and its column, both counted from zero.
pub fn locate(src: &Vec<char>, pos: usize) -> (loc: Location)
    ensures
        loc == location_of(src@, pos as int),
{
    let mut cursor = Cursor::new();
    cursor.seek(src, pos)
}

/// The text between two positions, as a string of its own.
pub(crate) fn text_of(src: &Vec<char>, from: usize, to: usize) -> (text: String)
    requires
        from <= to <= src@.len(),
    ensures
        text@ == src@.subrange(from as int, to as int),
{
    let mut text = String::new();
    let mut i: usize = from;
    while i < to
        invariant
            from <= i <= to <= src@.len(),
            text@ == src@.subrange(from as int, i as int),
        decreases to - i,
    {
        text.push(src[i]);
        proof {
            assert(src@.subrange(from as int, i as int).push(src@[i as int]) =~= src@.subrange(
                from as int,
                i + 1,
            ));
        }
        i = i + 1;
    }
    text
}

/// The bytes of the text between two positions, in UTF-8.
pub(crate) fn bytes_of(src: &Vec<char>, from: usize, to: usize) -> (bytes: Vec<u8>)
    requires
        from <= to <= src@.len(),
    ensures
        bytes@ == encode_utf8(src@.subrange(from as int, to as int)),
{
    let text = text_of(src, from, to);
    text.as_str().as_bytes_vec()
}

/// Whether two texts are the same.
pub fn same_text(a: &str, b: &str) -> (same: bool)
    ensures
        same == (a@ == b@),
{
    let x = a.as_bytes();
    let y = b.as_bytes();
    if x.len() != y.len() {
        return false;
    }
    let mut i: usize = 0;
    while i < x.len()
        invariant
            i <= x@.len(),
            x@.len() == y@.len(),
            x@ == encode_utf8(a@),
            y@ == encode_utf8(b@),
            forall|k: int| 0 <= k < i ==> x@[k] == y@[k],
        decreases x@.len() - i,
    {
        if x[i] != y[i] {
            return false;
        }
        i = i + 1;
    }
    proof {
        assert(x@ =~= y@);
        vstd::utf8::encode_utf8_decode_utf8(a@);
        vstd::utf8::encode_utf8_decode_utf8(b@);
    }
    true
}

} // verus!
