//! The boundary scanner: finds every line that begins with a marker string
//! and derives a contiguous span for each match, from its offset to the next
//! match's offset or to the end of the text.
//!
//! A line ends at each `'\n'` character; the character after a `'\n'` (and
//! offset 0) starts a line. Offsets are indices into the text's character
//! sequence.

use vstd::prelude::*;
use vstd::string::StrSliceExecFns;

verus! {

/// Offset `i` is the first character of a line of `text`.
pub open spec fn is_line_start(text: Seq<char>, i: int) -> bool {
    &&& 0 <= i < text.len()
    &&& (i == 0 || text[i - 1] == '\n')
}

/// `text` holds `pat` starting at offset `i`.
pub open spec fn matches_at(text: Seq<char>, pat: Seq<char>, i: int) -> bool {
    &&& 0 <= i
    &&& i + pat.len() <= text.len()
    &&& text.subrange(i, i + pat.len() as int) == pat
}

/// Offset `i` starts a line that begins with `marker`.
pub open spec fn is_boundary(text: Seq<char>, marker: Seq<char>, i: int) -> bool {
    &&& is_line_start(text, i)
    &&& matches_at(text, marker, i)
}

/// The boundary offsets of `text` below `hi`, in increasing order.
pub open spec fn boundaries_below(text: Seq<char>, marker: Seq<char>, hi: int) -> Seq<int>
    decreases hi,
{
    if hi <= 0 {
        Seq::empty()
    } else if is_boundary(text, marker, hi - 1) {
        boundaries_below(text, marker, hi - 1).push(hi - 1)
    } else {
        boundaries_below(text, marker, hi - 1)
    }
}

/// Every boundary offset of `text` for `marker`, in increasing order.
pub open spec fn boundaries(text: Seq<char>, marker: Seq<char>) -> Seq<int> {
    boundaries_below(text, marker, text.len() as int)
}

/// The span of each boundary: from its offset to the next boundary's offset,
/// the last span running to `end`.
pub open spec fn spans_of(bs: Seq<int>, end: int) -> Seq<(int, int)> {
    Seq::new(bs.len(), |j: int| (bs[j], if j + 1 < bs.len() { bs[j + 1] } else { end }))
}

/// The spans of all marker sections of `text`.
pub open spec fn marker_spans(text: Seq<char>, marker: Seq<char>) -> Seq<(int, int)> {
    spans_of(boundaries(text, marker), text.len() as int)
}

/// Every recorded offset below `hi` is a boundary, they are strictly
/// increasing, and they lie below `hi`.
proof fn lemma_boundaries_below_sound(text: Seq<char>, marker: Seq<char>, hi: int)
    ensures
        forall|j: int|
            0 <= j < boundaries_below(text, marker, hi).len() ==> is_boundary(
                text,
                marker,
                #[trigger] boundaries_below(text, marker, hi)[j],
            ) && boundaries_below(text, marker, hi)[j] < hi,
        forall|j1: int, j2: int|
            0 <= j1 < j2 < boundaries_below(text, marker, hi).len() ==> #[trigger] boundaries_below(
                text,
                marker,
                hi,
            )[j1] < #[trigger] boundaries_below(text, marker, hi)[j2],
    decreases hi,
{
    if hi > 0 {
        lemma_boundaries_below_sound(text, marker, hi - 1);
        let prev = boundaries_below(text, marker, hi - 1);
        let cur = boundaries_below(text, marker, hi);
        if is_boundary(text, marker, hi - 1) {
            assert(cur == prev.push(hi - 1));
            assert forall|j: int| 0 <= j < cur.len() implies is_boundary(text, marker, cur[j])
                && cur[j] < hi by {
                if j < prev.len() {
                    assert(cur[j] == prev[j]);
                } else {
                    assert(cur[j] == hi - 1);
                }
            }
            assert forall|j1: int, j2: int| 0 <= j1 < j2 < cur.len() implies cur[j1]
                < cur[j2] by {
                if j2 < prev.len() {
                    assert(cur[j1] == prev[j1] && cur[j2] == prev[j2]);
                } else {
                    assert(cur[j1] == prev[j1] && cur[j2] == hi - 1);
                    assert(prev[j1] < hi - 1);
                }
            }
        } else {
            assert(cur == prev);
        }
    }
}

/// Every boundary offset below `hi` is recorded.
proof fn lemma_boundaries_below_complete(text: Seq<char>, marker: Seq<char>, hi: int, p: int)
    requires
        0 <= p < hi,
        is_boundary(text, marker, p),
    ensures
        boundaries_below(text, marker, hi).contains(p),
    decreases hi,
{
    if p == hi - 1 {
        assert(boundaries_below(text, marker, hi)[boundaries_below(text, marker, hi).len() - 1]
            == p);
    } else {
        lemma_boundaries_below_complete(text, marker, hi - 1, p);
        let bs = boundaries_below(text, marker, hi - 1);
        let j = choose|j: int| 0 <= j < bs.len() && bs[j] == p;
        assert(boundaries_below(text, marker, hi)[j] == p);
    }
}

/// `boundaries` holds exactly the boundary offsets, in strictly increasing
/// order.
pub proof fn lemma_boundaries_exact(text: Seq<char>, marker: Seq<char>)
    ensures
        forall|j: int|
            0 <= j < boundaries(text, marker).len() ==> is_boundary(
                text,
                marker,
                #[trigger] boundaries(text, marker)[j],
            ),
        forall|j1: int, j2: int|
            0 <= j1 < j2 < boundaries(text, marker).len() ==> #[trigger] boundaries(
                text,
                marker,
            )[j1] < #[trigger] boundaries(text, marker)[j2],
        forall|p: int| is_boundary(text, marker, p) ==> boundaries(text, marker).contains(p),
{
    lemma_boundaries_below_sound(text, marker, text.len() as int);
    assert forall|p: int| is_boundary(text, marker, p) implies boundaries(
        text,
        marker,
    ).contains(p) by {
        lemma_boundaries_below_complete(text, marker, text.len() as int, p);
    }
}

/// A text in which no line begins with `marker` has no boundaries at all.
pub proof fn lemma_no_boundary_no_spans(text: Seq<char>, marker: Seq<char>)
    requires
        forall|i: int| !is_boundary(text, marker, i),
    ensures
        boundaries(text, marker).len() == 0,
        marker_spans(text, marker).len() == 0,
{
    lemma_boundaries_exact(text, marker);
    if boundaries(text, marker).len() > 0 {
        assert(is_boundary(text, marker, boundaries(text, marker)[0]));
    }
}

/// The marker spans partition the text from the first boundary to its end:
/// each span is non-empty and within bounds, each ends exactly where the next
/// begins, the spans never overlap, and the last one reaches the end.
pub proof fn lemma_spans_partition(text: Seq<char>, marker: Seq<char>)
    ensures
        forall|j: int|
            0 <= j < marker_spans(text, marker).len() ==> 0 <= (#[trigger] marker_spans(
                text,
                marker,
            )[j]).0 < marker_spans(text, marker)[j].1 <= text.len(),
        forall|j: int|
            0 <= j && j + 1 < marker_spans(text, marker).len() ==> (#[trigger] marker_spans(
                text,
                marker,
            )[j]).1 == marker_spans(text, marker)[j + 1].0,
        forall|j1: int, j2: int|
            0 <= j1 < j2 < marker_spans(text, marker).len() ==> (#[trigger] marker_spans(
                text,
                marker,
            )[j1]).1 <= (#[trigger] marker_spans(text, marker)[j2]).0,
        marker_spans(text, marker).len() > 0 ==> marker_spans(text, marker)[0].0 == boundaries(
            text,
            marker,
        )[0] && marker_spans(text, marker)[marker_spans(text, marker).len() - 1].1 == text.len(),
{
    lemma_boundaries_exact(text, marker);
}

/// The length of the first line of `text`: the offset of its first newline,
/// or the whole length when it has none.
pub open spec fn first_line_len(text: Seq<char>) -> int
    decreases text.len(),
{
    if text.len() == 0 {
        0
    } else if text[0] == '\n' {
        0
    } else {
        1 + first_line_len(text.subrange(1, text.len() as int))
    }
}

/// The first line of `text`, without its terminator.
pub open spec fn first_line(text: Seq<char>) -> Seq<char> {
    text.subrange(0, first_line_len(text))
}

/// The first line runs to the first newline of the text, or to its end when
/// it has none.
pub proof fn lemma_first_line_len_bounds(text: Seq<char>)
    ensures
        0 <= first_line_len(text) <= text.len(),
        forall|k: int| 0 <= k < first_line_len(text) ==> text[k] != '\n',
        first_line_len(text) == text.len() || text[first_line_len(text)] == '\n',
    decreases text.len(),
{
    if text.len() == 0 {
    } else if text[0] == '\n' {
    } else {
        let rest = text.subrange(1, text.len() as int);
        lemma_first_line_len_bounds(rest);
        assert forall|k: int| 0 <= k < first_line_len(text) implies text[k] != '\n' by {
            if k > 0 {
                assert(text[k] == rest[k - 1]);
            }
        }
        if first_line_len(text) < text.len() {
            assert(text[first_line_len(text)] == rest[first_line_len(rest)]);
        }
    }
}

/// An offset below the text's first newline, at it, or at the end of a
/// newline-free text, is the first line's length.
pub proof fn lemma_first_line_len_is(text: Seq<char>, n: int)
    requires
        0 <= n <= text.len(),
        forall|k: int| 0 <= k < n ==> text[k] != '\n',
        n == text.len() || text[n] == '\n',
    ensures
        first_line_len(text) == n,
{
    lemma_first_line_len_bounds(text);
}

/// When the marker holds no newline, every span is long enough to hold it,
/// and opens with it.
pub proof fn lemma_span_holds_marker(text: Seq<char>, marker: Seq<char>)
    requires
        forall|k: int| 0 <= k < marker.len() ==> marker[k] != '\n',
    ensures
        forall|j: int|
            0 <= j < marker_spans(text, marker).len() ==> (#[trigger] marker_spans(
                text,
                marker,
            )[j]).0 + marker.len() <= marker_spans(text, marker)[j].1 && matches_at(
                text,
                marker,
                marker_spans(text, marker)[j].0,
            ),
{
    lemma_boundaries_exact(text, marker);
    let bs = boundaries(text, marker);
    let spans = marker_spans(text, marker);
    assert forall|j: int| 0 <= j < spans.len() implies (#[trigger] spans[j]).0 + marker.len()
        <= spans[j].1 && matches_at(text, marker, spans[j].0) by {
        assert(is_boundary(text, marker, bs[j]));
        if j + 1 < spans.len() {
            let b = bs[j];
            let next = bs[j + 1];
            assert(is_boundary(text, marker, next));
            assert(b < next);
            if next < b + marker.len() {
                let d = next - 1 - b;
                assert(text.subrange(b, b + marker.len() as int)[d] == text[next - 1]);
                assert(marker[d] != '\n');
            }
        }
    }
}

/// Whether `text` holds `pat` starting at offset `i`.
fn starts_with_at(text: &str, pat: &str, i: usize) -> (b: bool)
    requires
        i <= text@.len(),
    ensures
        b == matches_at(text@, pat@, i as int),
{
    let n = text.unicode_len();
    let m = pat.unicode_len();
    if m > n - i {
        return false;
    }
    let mut j: usize = 0;
    while j < m
        invariant
            n == text@.len(),
            m == pat@.len(),
            i + m <= n,
            j <= m,
            forall|k: int| 0 <= k < j ==> text@[i + k] == pat@[k],
        decreases m - j,
    {
        if text.get_char(i + j) != pat.get_char(j) {
            proof {
                assert(text@.subrange(i as int, i + m) =~= pat@ ==> text@.subrange(
                    i as int,
                    i + m,
                )[j as int] == pat@[j as int]);
            }
            return false;
        }
        j += 1;
    }
    proof {
        assert(text@.subrange(i as int, i + m) =~= pat@);
    }
    true
}

/// The span of every `needle`-headed section of `content`: each line that
/// begins with `needle` opens a span that runs to the next such line, the
/// last one to the end of the text. A text without such a line gives the
/// empty sequence.
pub(crate) fn extract_boundaries_on(content: &str, needle: &str) -> (r: Vec<(usize, usize)>)
    ensures
        r@.len() == marker_spans(content@, needle@).len(),
        forall|j: int|
            0 <= j < r@.len() ==> (#[trigger] r@[j]).0 == marker_spans(content@, needle@)[j].0 && r@[
                j
            ].1 == marker_spans(content@, needle@)[j].1,
        forall|j: int| 0 <= j < r@.len() ==> 0 <= (#[trigger] r@[j]).0 < r@[j].1 <= content@.len(),
{
    let n = content.unicode_len();
    let mut starts: Vec<usize> = Vec::new();
    let mut i: usize = 0;
    let mut at_start: bool = true;
    while i < n
        invariant
            n == content@.len(),
            i <= n,
            i == 0 ==> at_start,
            i > 0 ==> (at_start <==> content@[i - 1] == '\n'),
            starts@.len() == boundaries_below(content@, needle@, i as int).len(),
            forall|j: int|
                0 <= j < starts@.len() ==> #[trigger] starts@[j] == boundaries_below(
                    content@,
                    needle@,
                    i as int,
                )[j],
        decreases n - i,
    {
        let ghost prev = boundaries_below(content@, needle@, i as int);
        if at_start && starts_with_at(content, needle, i) {
            starts.push(i);
            proof {
                assert(is_boundary(content@, needle@, i as int));
                assert(boundaries_below(content@, needle@, i + 1) == prev.push(i as int));
            }
        } else {
            proof {
                assert(!is_boundary(content@, needle@, i as int));
                assert(boundaries_below(content@, needle@, i + 1) == prev);
            }
        }
        at_start = content.get_char(i) == '\n';
        i += 1;
    }
    proof {
        lemma_boundaries_exact(content@, needle@);
    }
    let k = starts.len();
    let mut r: Vec<(usize, usize)> = Vec::new();
    let mut j: usize = 0;
    while j < k
        invariant
            n == content@.len(),
            k == starts@.len(),
            k == boundaries(content@, needle@).len(),
            forall|jj: int|
                0 <= jj < k ==> #[trigger] starts@[jj] == boundaries(content@, needle@)[jj],
            forall|jj: int|
                0 <= jj < k ==> is_boundary(content@, needle@, #[trigger] starts@[jj] as int),
            forall|j1: int, j2: int|
                0 <= j1 < j2 < k ==> #[trigger] starts@[j1] < #[trigger] starts@[j2],
            j <= k,
            r@.len() == j,
            forall|jj: int|
                0 <= jj < j ==> (#[trigger] r@[jj]).0 == marker_spans(content@, needle@)[jj].0
                    && r@[jj].1 == marker_spans(content@, needle@)[jj].1,
            forall|jj: int|
                0 <= jj < j ==> 0 <= (#[trigger] r@[jj]).0 < r@[jj].1 <= content@.len(),
        decreases k - j,
    {
        let upper = starts[j];
        let lower = if j + 1 < k {
            starts[j + 1]
        } else {
            n
        };
        r.push((upper, lower));
        j += 1;
    }
    r
}

} // verus!
