//! Zero-copy views over unified-diff ("patch") text.
//!
//! `Diff::parse` splits patch text into per-file sections at lines that begin
//! with `"+++ "`, and each section into hunks at lines that begin with
//! `"@@ "`. Every level is a borrowed view into the one input string; nothing
//! is copied. A line ends at each `'\n'` character: callers feeding text with
//! other line terminators normalize it first.

use vstd::prelude::*;
use vstd::string::StrSliceExecFns;

pub mod laws;
pub mod scan;

verus! {

use crate::scan::boundaries;
use crate::scan::extract_boundaries_on;
use crate::scan::first_line;
use crate::scan::first_line_len;
use crate::scan::marker_spans;

/// The four characters that open a file section's header line.
pub open spec fn file_marker() -> Seq<char> {
    seq!['+', '+', '+', ' ']
}

/// The three characters that open a hunk's header line.
pub open spec fn hunk_marker() -> Seq<char> {
    seq!['@', '@', ' ']
}

/// The display name carried by a file section: its first line with the four
/// marker characters removed.
pub open spec fn name_of(text: Seq<char>) -> Seq<char> {
    first_line(text).skip(4)
}

/// A failure surfaced by the library's accessors.
#[derive(Eq, PartialEq, Debug, Clone, Copy)]
pub enum DiffError {
    /// A file section whose header line is shorter than the four-character
    /// marker, or an empty file section.
    MalformedHeaderLine,
}

/// A view over one hunk of a file section: from its `"@@ "` line up to, but
/// not including, the next `"@@ "` line or the section's end.
#[derive(Eq, PartialEq, Debug)]
pub struct Chunk<'a> {
    content: &'a str,
}

/// A view over one file section: from its `"+++ "` line up to, but not
/// including, the next `"+++ "` line or the end of the text.
#[derive(Eq, PartialEq, Debug)]
pub struct File<'a> {
    content: &'a str,
    chunk_points: Vec<Chunk<'a>>,
}

/// A parsed patch: the full text and its ordered file sections.
#[derive(Eq, PartialEq, Debug)]
pub struct Diff<'a> {
    content: &'a str,
    file_points: Vec<File<'a>>,
}

/// The chunks are exactly the hunk sections of `text`: one per line of
/// `text` that begins with `"@@ "`, in order, each holding its span.
pub open spec fn chunks_match<'a>(text: Seq<char>, chunks: Seq<Chunk<'a>>) -> bool {
    &&& chunks.len() == marker_spans(text, hunk_marker()).len()
    &&& forall|j: int|
        0 <= j < chunks.len() ==> (#[trigger] chunks[j]).text() == text.subrange(
            marker_spans(text, hunk_marker())[j].0,
            marker_spans(text, hunk_marker())[j].1,
        )
}

impl<'a> Chunk<'a> {
    /// The characters of this hunk's span.
    pub closed spec fn text(self) -> Seq<char> {
        self.content@
    }

    /// The raw hunk text, header line and following lines, verbatim.
    pub fn content(&self) -> (r: &'a str)
        ensures
            r@ == self.text(),
    {
        self.content
    }
}

impl<'a> File<'a> {
    /// The characters of this file section's span.
    pub closed spec fn text(self) -> Seq<char> {
        self.content@
    }

    /// The ordered hunks of this file section.
    pub closed spec fn chunk_seq(self) -> Seq<Chunk<'a>> {
        self.chunk_points@
    }

    /// The hunks are exactly the hunk sections of this file's span.
    pub open spec fn wf(self) -> bool {
        chunks_match(self.text(), self.chunk_seq())
    }

    /// The file's display name: the first line of its span with the leading
    /// four characters removed, or an error when the first line is shorter
    /// than the marker. Sections made by `Diff::parse` always carry a name.
    pub fn name(&self) -> (r: Result<&'a str, DiffError>)
        ensures
            r is Ok <==> first_line_len(self.text()) >= 4,
            r is Ok ==> (r->Ok_0)@ == name_of(self.text()),
            r is Err ==> r->Err_0 == DiffError::MalformedHeaderLine,
    {
        let n = self.content.unicode_len();
        let mut e: usize = 0;
        while e < n && self.content.get_char(e) != '\n'
            invariant
                n == self.content@.len(),
                e <= n,
                forall|k: int| 0 <= k < e ==> self.content@[k] != '\n',
            decreases n - e,
        {
            e += 1;
        }
        proof {
            scan::lemma_first_line_len_is(self.content@, e as int);
        }
        if e >= 4 {
            let s = self.content.substring_char(4, e);
            proof {
                assert(s@ =~= name_of(self.content@));
            }
            Ok(s)
        } else {
            Err(DiffError::MalformedHeaderLine)
        }
    }

    /// The ordered hunks of this file section.
    pub fn chunks(&self) -> (r: &[Chunk<'a>])
        ensures
            r@ == self.chunk_seq(),
    {
        self.chunk_points.as_slice()
    }

    /// The raw file-section text, header line and hunks, verbatim.
    pub fn content(&self) -> (r: &'a str)
        ensures
            r@ == self.text(),
    {
        self.content
    }
}

impl<'a> Diff<'a> {
    /// The characters of the full patch text.
    pub closed spec fn text(self) -> Seq<char> {
        self.content@
    }

    /// The ordered file sections of the patch.
    pub closed spec fn file_seq(self) -> Seq<File<'a>> {
        self.file_points@
    }

    /// The files are exactly the file sections of the text: one per line
    /// that begins with `"+++ "`, in order, each holding its span and its
    /// own well-formed hunks.
    pub open spec fn wf(self) -> bool {
        &&& self.file_seq().len() == marker_spans(self.text(), file_marker()).len()
        &&& forall|i: int|
            0 <= i < self.file_seq().len() ==> (#[trigger] self.file_seq()[i]).text()
                == self.text().subrange(
                marker_spans(self.text(), file_marker())[i].0,
                marker_spans(self.text(), file_marker())[i].1,
            ) && self.file_seq()[i].wf()
    }

    /// Splits `content` into file sections at its `"+++ "` lines, and each
    /// section into hunks at its `"@@ "` lines. A text without a `"+++ "`
    /// line gives a diff with no files.
    pub fn parse(content: &'a str) -> (d: Diff<'a>)
        ensures
            d.wf(),
            d.text() == content@,
            d.file_seq().len() == boundaries(content@, file_marker()).len(),
    {
        proof {
            reveal_strlit("+++ ");
            assert(("+++ ")@ =~= file_marker());
        }
        let spans = extract_boundaries_on(content, "+++ ");
        let mut files: Vec<File<'a>> = Vec::new();
        let mut i: usize = 0;
        while i < spans.len()
            invariant
                spans@.len() == marker_spans(content@, file_marker()).len(),
                forall|j: int|
                    0 <= j < spans@.len() ==> (#[trigger] spans@[j]).0 == marker_spans(
                        content@,
                        file_marker(),
                    )[j].0 && spans@[j].1 == marker_spans(content@, file_marker())[j].1,
                forall|j: int|
                    0 <= j < spans@.len() ==> 0 <= (#[trigger] spans@[j]).0 < spans@[j].1
                        <= content@.len(),
                i <= spans@.len(),
                files@.len() == i,
                forall|j: int|
                    0 <= j < i ==> (#[trigger] files@[j]).text() == content@.subrange(
                        marker_spans(content@, file_marker())[j].0,
                        marker_spans(content@, file_marker())[j].1,
                    ) && files@[j].wf(),
            decreases spans@.len() - i,
        {
            let span = spans[i];
            let file_content = content.substring_char(span.0, span.1);
            let chunks = Diff::parse_chunks(file_content);
            files.push(File { content: file_content, chunk_points: chunks });
            i += 1;
        }
        Diff { content, file_points: files }
    }

    /// The ordered file sections, as they appear in the text.
    pub fn files(&self) -> (r: &[File<'a>])
        ensures
            r@ == self.file_seq(),
    {
        self.file_points.as_slice()
    }

    /// The full original patch text.
    pub fn content(&self) -> (r: &'a str)
        ensures
            r@ == self.text(),
    {
        self.content
    }

    /// Splits one file section into its hunks at its `"@@ "` lines.
    fn parse_chunks(content: &'a str) -> (r: Vec<Chunk<'a>>)
        ensures
            chunks_match(content@, r@),
    {
        proof {
            reveal_strlit("@@ ");
            assert(("@@ ")@ =~= hunk_marker());
        }
        let spans = extract_boundaries_on(content, "@@ ");
        let mut chunks: Vec<Chunk<'a>> = Vec::new();
        let mut i: usize = 0;
        while i < spans.len()
            invariant
                spans@.len() == marker_spans(content@, hunk_marker()).len(),
                forall|j: int|
                    0 <= j < spans@.len() ==> (#[trigger] spans@[j]).0 == marker_spans(
                        content@,
                        hunk_marker(),
                    )[j].0 && spans@[j].1 == marker_spans(content@, hunk_marker())[j].1,
                forall|j: int|
                    0 <= j < spans@.len() ==> 0 <= (#[trigger] spans@[j]).0 < spans@[j].1
                        <= content@.len(),
                i <= spans@.len(),
                chunks@.len() == i,
                forall|j: int|
                    0 <= j < i ==> (#[trigger] chunks@[j]).text() == content@.subrange(
                        marker_spans(content@, hunk_marker())[j].0,
                        marker_spans(content@, hunk_marker())[j].1,
                    ),
            decreases spans@.len() - i,
        {
            let span = spans[i];
            let chunk_content = content.substring_char(span.0, span.1);
            chunks.push(Chunk { content: chunk_content });
            i += 1;
        }
        chunks
    }
}

} // verus!
