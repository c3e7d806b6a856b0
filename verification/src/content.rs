//! The raw lines of one fetched field, and what can be asked of them.

use vstd::prelude::*;
use vstd::string::*;
use vstd::utf8::encode_utf8;

verus! {

/// The parts laid end to end, with nothing put between them.
pub open spec fn joined<A>(parts: Seq<Seq<A>>) -> Seq<A>
    decreases parts.len(),
{
    if parts.len() == 0 {
        Seq::empty()
    } else {
        joined(parts.drop_last()) + parts.last()
    }
}

/// `needle` occurs in `hay` as a run of consecutive characters.
pub open spec fn is_substring(hay: Seq<char>, needle: Seq<char>) -> bool {
    exists|i: int|
        0 <= i && i + needle.len() <= hay.len() && #[trigger] hay.subrange(
            i,
            i + needle.len(),
        ) == needle
}

/// The UTF-8 bytes of each line, laid end to end.
pub open spec fn encoded(lines: Seq<Seq<char>>) -> Seq<u8> {
    joined(lines.map_values(|line: Seq<char>| encode_utf8(line)))
}

/// The lines that one fetch of one field returned, in the order received.
#[derive(Debug)]
pub struct FileContent(pub Vec<String>);

impl View for FileContent {
    type V = Seq<Seq<char>>;

    open spec fn view(&self) -> Seq<Seq<char>> {
        self.0@.map_values(|line: String| line@)
    }
}

/// Substring search of `str::contains` with a string pattern: true exactly
/// when the characters of `needle` occur consecutively somewhere in `hay`.
/// The empty pattern occurs in every string.
#[verifier::external_body]
fn str_contains(hay: &str, needle: &str) -> (found: bool)
    ensures
        found == is_substring(hay@, needle@),
{
    hay.contains(needle)
}

/// `lines` is `text` cut after each line feed: the lines joined give the
/// text back, no line is empty, a line feed stands nowhere but at the end
/// of a line, and every line but the last ends with one.
pub open spec fn cut_into_lines(text: Seq<char>, lines: Seq<Seq<char>>) -> bool {
    &&& joined(lines) == text
    &&& forall|i: int| 0 <= i < lines.len() ==> (#[trigger] lines[i]).len() > 0
    &&& forall|i: int, j: int|
        0 <= i < lines.len() && 0 <= j < lines[i].len() - 1 ==> #[trigger] lines[i][j] != '\n'
    &&& forall|i: int| 0 <= i < lines.len() - 1 ==> (#[trigger] lines[i]).last() == '\n'
}

/// The pieces that `str::split_inclusive` gives for the pattern `'\n'`,
/// each as an owned string and in their order: the text is cut after every
/// line feed, which stays at the end of its piece; no piece is empty, so a
/// text that ends in a line feed has no piece after it and the empty text
/// has none at all.
#[verifier::external_body]
fn split_after_line_feeds(text: &str) -> (pieces: Vec<String>)
    ensures
        cut_into_lines(text@, pieces@.map_values(|piece: String| piece@)),
{
    text.split_inclusive('\n').map(str::to_owned).collect()
}

impl FileContent {
    /// The lines of an answer received as one text: the text cut after
    /// each line feed, with nothing taken away.
    pub fn from_text(text: &str) -> (content: FileContent)
        ensures
            cut_into_lines(text@, content@),
            content.text() == text@,
    {
        FileContent(split_after_line_feeds(text))
    }

    /// The whole text of the field: its lines joined without separators.
    pub open spec fn text(&self) -> Seq<char> {
        joined(self@)
    }

    /// The bytes that stand for the field in a file.
    pub open spec fn bytes(&self) -> Seq<u8> {
        encoded(self@)
    }

    pub fn new(lines: Vec<String>) -> (content: FileContent)
        ensures
            content.0 == lines,
            content@ == lines@.map_values(|line: String| line@),
    {
        FileContent(lines)
    }

    /// The lines joined into one string.
    pub fn to_text(&self) -> (text: String)
        ensures
            text@ == self.text(),
    {
        let mut text = String::new();
        let mut i: usize = 0;
        assert(self@.take(0) =~= Seq::<Seq<char>>::empty());
        while i < self.0.len()
            invariant
                i <= self.0.len(),
                text@ == joined(self@.take(i as int)),
            decreases self.0.len() - i,
        {
            text.append(self.0[i].as_str());
            proof {
                let next = self@.take(i + 1);
                assert(next.drop_last() =~= self@.take(i as int));
                assert(next.last() == self.0[i as int]@);
            }
            i += 1;
        }
        assert(self@.take(i as int) =~= self@);
        text
    }

    /// Whether `substring` occurs anywhere in the text of the field. The
    /// comparison is exact: case matters and nothing is normalised.
    pub fn contains(&self, substring: &str) -> (found: bool)
        ensures
            found == is_substring(self.text(), substring@),
    {
        let text = self.to_text();
        str_contains(text.as_str(), substring)
    }

    /// The field as it is written to a file: the bytes of its lines, one
    /// after the other, with no delimiter added.
    pub fn to_bytes(&self) -> (bytes: Vec<u8>)
        ensures
            bytes@ == self.bytes(),
    {
        let mut bytes: Vec<u8> = Vec::new();
        let mut i: usize = 0;
        let ghost parts = self@.map_values(|line: Seq<char>| encode_utf8(line));
        assert(parts.take(0) =~= Seq::<Seq<u8>>::empty());
        while i < self.0.len()
            invariant
                i <= self.0.len(),
                parts == self@.map_values(|line: Seq<char>| encode_utf8(line)),
                bytes@ == joined(parts.take(i as int)),
            decreases self.0.len() - i,
        {
            let line = self.0[i].as_str().as_bytes();
            bytes.extend_from_slice(line);
            proof {
                let next = parts.take(i + 1);
                assert(next.drop_last() =~= parts.take(i as int));
                assert(next.last() == encode_utf8(self.0[i as int]@));
            }
            i += 1;
        }
        assert(parts.take(i as int) =~= parts);
        bytes
    }

    /// A copy with the same lines.
    pub fn duplicate(&self) -> (copy: FileContent)
        ensures
            copy@ == self@,
    {
        let mut lines: Vec<String> = Vec::new();
        let mut i: usize = 0;
        while i < self.0.len()
            invariant
                i <= self.0.len(),
                lines@.len() == i,
                forall|j: int| 0 <= j < i ==> lines@[j]@ == self.0@[j]@,
            decreases self.0.len() - i,
        {
            lines.push(self.0[i].clone());
            i += 1;
        }
        let copy = FileContent(lines);
        assert(copy@ =~= self@);
        copy
    }
}

/// A line that holds the marker makes the whole text hold it: joining lines
/// never hides an occurrence.
pub proof fn lemma_line_occurrence_survives_joining(
    lines: Seq<Seq<char>>,
    k: int,
    needle: Seq<char>,
)
    requires
        0 <= k < lines.len(),
        is_substring(lines[k], needle),
    ensures
        is_substring(joined(lines), needle),
    decreases lines.len(),
{
    let front = joined(lines.drop_last());
    let whole = joined(lines);
    if k == lines.len() - 1 {
        let i = choose|i: int|
            0 <= i && i + needle.len() <= lines[k].len() && #[trigger] lines[k].subrange(
                i,
                i + needle.len(),
            ) == needle;
        assert(whole.subrange(front.len() + i, front.len() + i + needle.len()) =~= needle);
    } else {
        lemma_line_occurrence_survives_joining(lines.drop_last(), k, needle);
        let i = choose|i: int|
            0 <= i && i + needle.len() <= front.len() && #[trigger] front.subrange(
                i,
                i + needle.len(),
            ) == needle;
        assert(whole.subrange(i, i + needle.len()) =~= needle);
    }
}

} // verus!
