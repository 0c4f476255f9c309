//! Laws of the parser, stated over the structures' views: what a well-formed
//! `Diff` guarantees about its file and hunk sections.

use vstd::prelude::*;

verus! {

use crate::scan;
use crate::scan::boundaries;
use crate::scan::first_line_len;
use crate::scan::is_boundary;
use crate::scan::marker_spans;
use crate::scan::matches_at;
use crate::Diff;
use crate::File;
use crate::file_marker;
use crate::hunk_marker;
use crate::name_of;

/// No character of the file marker is a newline.
proof fn lemma_file_marker_has_no_newline()
    ensures
        forall|k: int| 0 <= k < file_marker().len() ==> file_marker()[k] != '\n',
{
    assert forall|k: int| 0 <= k < file_marker().len() implies file_marker()[k] != '\n' by {
        if k == 0 || k == 1 || k == 2 {
            assert(file_marker()[k] == '+');
        } else {
            assert(file_marker()[k] == ' ');
        }
    }
}

/// A text in which no line begins with `"+++ "` parses to a diff with no
/// files.
pub proof fn lemma_no_marker_no_files<'a>(d: Diff<'a>)
    requires
        d.wf(),
        forall|i: int| !is_boundary(d.text(), file_marker(), i),
    ensures
        d.file_seq().len() == 0,
{
    scan::lemma_no_boundary_no_spans(d.text(), file_marker());
}

/// Each file section's span begins exactly at the offset of its defining
/// `"+++ "` line, and opens with that marker.
pub proof fn lemma_file_starts_at_marker<'a>(d: Diff<'a>, i: int)
    requires
        d.wf(),
        0 <= i < d.file_seq().len(),
    ensures
        is_boundary(d.text(), file_marker(), marker_spans(d.text(), file_marker())[i].0),
        marker_spans(d.text(), file_marker())[i].0 == boundaries(d.text(), file_marker())[i],
        d.file_seq()[i].text() == d.text().subrange(
            marker_spans(d.text(), file_marker())[i].0,
            marker_spans(d.text(), file_marker())[i].1,
        ),
        matches_at(d.file_seq()[i].text(), file_marker(), 0),
{
    scan::lemma_boundaries_exact(d.text(), file_marker());
    lemma_file_marker_has_no_newline();
    scan::lemma_span_holds_marker(d.text(), file_marker());
    let span = marker_spans(d.text(), file_marker())[i];
    let fl = d.file_seq()[i].text();
    assert(matches_at(d.text(), file_marker(), span.0));
    assert(fl.subrange(0, file_marker().len() as int) =~= d.text().subrange(
        span.0,
        span.0 + file_marker().len() as int,
    ));
}

/// Every file section made by parsing carries a header line of at least the
/// marker's four characters, so its name is defined.
pub proof fn lemma_file_has_header<'a>(d: Diff<'a>, i: int)
    requires
        d.wf(),
        0 <= i < d.file_seq().len(),
    ensures
        first_line_len(d.file_seq()[i].text()) >= 4,
{
    lemma_file_starts_at_marker(d, i);
    let fl = d.file_seq()[i].text();
    scan::lemma_first_line_len_bounds(fl);
    let n = first_line_len(fl);
    if n < 4 {
        assert(fl[n] == fl.subrange(0, file_marker().len() as int)[n]);
        lemma_file_marker_has_no_newline();
        assert(fl[n] != '\n');
    }
}

/// The file spans are ordered and non-overlapping: each ends exactly where
/// the next begins, and the last runs to the end of the text, so together
/// they cover the text from the first `"+++ "` marker to its end.
pub proof fn lemma_files_partition<'a>(d: Diff<'a>)
    requires
        d.wf(),
    ensures
        forall|j: int|
            0 <= j < d.file_seq().len() ==> 0 <= (#[trigger] marker_spans(
                d.text(),
                file_marker(),
            )[j]).0 < marker_spans(d.text(), file_marker())[j].1 <= d.text().len(),
        forall|j: int|
            0 <= j && j + 1 < d.file_seq().len() ==> (#[trigger] marker_spans(
                d.text(),
                file_marker(),
            )[j]).1 == marker_spans(d.text(), file_marker())[j + 1].0,
        forall|j1: int, j2: int|
            0 <= j1 < j2 < d.file_seq().len() ==> (#[trigger] marker_spans(
                d.text(),
                file_marker(),
            )[j1]).1 <= (#[trigger] marker_spans(d.text(), file_marker())[j2]).0,
        d.file_seq().len() > 0 ==> marker_spans(d.text(), file_marker())[0].0 == boundaries(
            d.text(),
            file_marker(),
        )[0] && marker_spans(d.text(), file_marker())[d.file_seq().len() - 1].1 == d.text().len(),
        forall|j: int|
            0 <= j < d.file_seq().len() ==> (#[trigger] d.file_seq()[j]).text() == d.text()
                .subrange(
                marker_spans(d.text(), file_marker())[j].0,
                marker_spans(d.text(), file_marker())[j].1,
            ),
{
    scan::lemma_spans_partition(d.text(), file_marker());
}

/// The file sections' spans, concatenated in order.
pub open spec fn files_concat<'a>(files: Seq<File<'a>>) -> Seq<char>
    decreases files.len(),
{
    if files.len() == 0 {
        Seq::empty()
    } else {
        files[0].text() + files_concat(files.drop_first())
    }
}

/// The sections from the `k`th on cover the text from the `k`th span's start
/// to the end.
proof fn lemma_files_cover_from<'a>(d: Diff<'a>, k: int)
    requires
        d.wf(),
        0 <= k < d.file_seq().len(),
    ensures
        files_concat(d.file_seq().skip(k)) == d.text().subrange(
            marker_spans(d.text(), file_marker())[k].0,
            d.text().len() as int,
        ),
    decreases d.file_seq().len() - k,
{
    scan::lemma_spans_partition(d.text(), file_marker());
    let files = d.file_seq();
    let spans = marker_spans(d.text(), file_marker());
    assert(files.skip(k)[0] == files[k]);
    assert(files.skip(k).drop_first() =~= files.skip(k + 1));
    assert(files_concat(files.skip(k)) == files[k].text() + files_concat(files.skip(k + 1)));
    if k == files.len() - 1 {
        assert(files.skip(k + 1).len() == 0);
        assert(files_concat(files.skip(k + 1)) == Seq::<char>::empty());
        assert(files[k].text() + Seq::<char>::empty() =~= files[k].text());
        assert(spans[k].1 == d.text().len());
    } else {
        lemma_files_cover_from(d, k + 1);
        assert(spans[k].1 == spans[k + 1].0);
        assert(d.text().subrange(spans[k].0, spans[k].1) + d.text().subrange(
            spans[k + 1].0,
            d.text().len() as int,
        ) =~= d.text().subrange(spans[k].0, d.text().len() as int));
    }
}

/// Together, in order, the file sections' spans are exactly the portion of
/// the input from the first `"+++ "` marker to the end of the text.
pub proof fn lemma_files_cover_tail<'a>(d: Diff<'a>)
    requires
        d.wf(),
        d.file_seq().len() > 0,
    ensures
        files_concat(d.file_seq()) == d.text().subrange(
            boundaries(d.text(), file_marker())[0],
            d.text().len() as int,
        ),
{
    lemma_files_cover_from(d, 0);
    assert(d.file_seq().skip(0) =~= d.file_seq());
}

/// A file section holds exactly one chunk per line of its span that begins
/// with `"@@ "`.
pub proof fn lemma_chunk_count<'a>(f: File<'a>)
    requires
        f.wf(),
    ensures
        f.chunk_seq().len() == boundaries(f.text(), hunk_marker()).len(),
{
}

/// Two diffs agree structurally: same file count, and file by file the same
/// span, the same name, and the same chunks.
pub open spec fn same_structure<'a, 'b>(d1: Diff<'a>, d2: Diff<'b>) -> bool {
    &&& d1.file_seq().len() == d2.file_seq().len()
    &&& forall|i: int|
        0 <= i < d1.file_seq().len() ==> {
            &&& (#[trigger] d1.file_seq()[i]).text() == (#[trigger] d2.file_seq()[i]).text()
            &&& name_of(d1.file_seq()[i].text()) == name_of(d2.file_seq()[i].text())
            &&& d1.file_seq()[i].chunk_seq().len() == d2.file_seq()[i].chunk_seq().len()
            &&& forall|j: int|
                0 <= j < d1.file_seq()[i].chunk_seq().len() ==> (#[trigger] d1.file_seq()[i]
                    .chunk_seq()[j]).text() == d2.file_seq()[i].chunk_seq()[j].text()
        }
}

/// Parsing is deterministic: two well-formed diffs over the same text agree
/// file by file and chunk by chunk.
pub proof fn lemma_parse_deterministic<'a, 'b>(d1: Diff<'a>, d2: Diff<'b>)
    requires
        d1.wf(),
        d2.wf(),
        d1.text() == d2.text(),
    ensures
        same_structure(d1, d2),
{
    assert forall|i: int| 0 <= i < d1.file_seq().len() implies {
        &&& (#[trigger] d1.file_seq()[i]).text() == (#[trigger] d2.file_seq()[i]).text()
        &&& name_of(d1.file_seq()[i].text()) == name_of(d2.file_seq()[i].text())
        &&& d1.file_seq()[i].chunk_seq().len() == d2.file_seq()[i].chunk_seq().len()
        &&& forall|j: int|
            0 <= j < d1.file_seq()[i].chunk_seq().len() ==> (#[trigger] d1.file_seq()[i]
                .chunk_seq()[j]).text() == d2.file_seq()[i].chunk_seq()[j].text()
    } by {
        let f1 = d1.file_seq()[i];
        let f2 = d2.file_seq()[i];
        assert(f1.text() == f2.text());
        assert(f1.wf() && f2.wf());
        assert forall|j: int| 0 <= j < f1.chunk_seq().len() implies (#[trigger] f1.chunk_seq()[j])
            .text() == f2.chunk_seq()[j].text() by {
            assert(f1.chunk_seq()[j].text() == f1.text().subrange(
                marker_spans(f1.text(), hunk_marker())[j].0,
                marker_spans(f1.text(), hunk_marker())[j].1,
            ));
            assert(f2.chunk_seq()[j].text() == f2.text().subrange(
                marker_spans(f2.text(), hunk_marker())[j].0,
                marker_spans(f2.text(), hunk_marker())[j].1,
            ));
        }
    }
}

} // verus!
