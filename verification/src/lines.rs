use vstd::prelude::*;

use crate::text::{has_prefix, ascii_bytes, lit_bytes, spec_has_prefix};

verus! {

/// The view of a vector of byte lines.
pub open spec fn lines_view(v: Seq<Vec<u8>>) -> Seq<Seq<u8>> {
    v.map_values(|l: Vec<u8>| l@)
}

/// The view of a vector of segments, each a vector of byte lines.
pub open spec fn segs_view(v: Seq<Vec<Vec<u8>>>) -> Seq<Seq<Seq<u8>>> {
    v.map_values(|seg: Vec<Vec<u8>>| lines_view(seg@))
}

pub proof fn lemma_lines_view_push(v: Seq<Vec<u8>>, l: Vec<u8>)
    ensures
        lines_view(v.push(l)) =~= lines_view(v).push(l@),
{
    assert forall|t: int| 0 <= t < v.len() + 1 implies lines_view(v.push(l))[t] == lines_view(
        v,
    ).push(l@)[t] by {
        if t < v.len() {
            assert(v.push(l)[t] == v[t]);
        }
    }
}

pub proof fn lemma_segs_view_push(v: Seq<Vec<Vec<u8>>>, seg: Vec<Vec<u8>>)
    ensures
        segs_view(v.push(seg)) =~= segs_view(v).push(lines_view(seg@)),
{
    assert forall|t: int| 0 <= t < v.len() + 1 implies segs_view(v.push(seg))[t] == segs_view(
        v,
    ).push(lines_view(seg@))[t] by {
        if t < v.len() {
            assert(v.push(seg)[t] == v[t]);
        }
    }
}

/// Copies the byte range `[from, to)` of `s` into an owned vector.
pub fn copy_range(s: &Vec<u8>, from: usize, to: usize) -> (r: Vec<u8>)
    requires
        from <= to <= s@.len(),
    ensures
        r@ == s@.subrange(from as int, to as int),
{
    let mut r: Vec<u8> = Vec::new();
    let mut i: usize = from;
    while i < to
        invariant
            from <= i <= to <= s@.len(),
            r@ == s@.subrange(from as int, i as int),
        decreases to - i,
    {
        r.push(s[i]);
        i = i + 1;
        assert(r@ =~= s@.subrange(from as int, i as int));
    }
    r
}

/// Copies the range `[from, to)` of a row of stored values.
pub fn copy_range_i32(s: &Vec<i32>, from: usize, to: usize) -> (r: Vec<i32>)
    requires
        from <= to <= s@.len(),
    ensures
        r@ == s@.subrange(from as int, to as int),
{
    let mut r: Vec<i32> = Vec::new();
    let mut i: usize = from;
    while i < to
        invariant
            from <= i <= to <= s@.len(),
            r@ == s@.subrange(from as int, i as int),
        decreases to - i,
    {
        r.push(s[i]);
        i = i + 1;
        assert(r@ =~= s@.subrange(from as int, i as int));
    }
    r
}

/// Copies one byte line.
pub fn clone_line(l: &Vec<u8>) -> (r: Vec<u8>)
    ensures
        r@ == l@,
{
    let r = copy_range(l, 0, l.len());
    assert(l@.subrange(0, l@.len() as int) =~= l@);
    r
}

/// First position at or after `from` holding a newline byte, or the end.
pub open spec fn find_nl(s: Seq<u8>, from: int) -> int
    decreases s.len() - from,
{
    if from < 0 || from >= s.len() {
        s.len() as int
    } else if s[from] == 10 {
        from
    } else {
        find_nl(s, from + 1)
    }
}

pub proof fn lemma_find_nl(s: Seq<u8>, from: int)
    requires
        0 <= from <= s.len(),
    ensures
        from <= find_nl(s, from) <= s.len(),
        forall|i: int| from <= i < find_nl(s, from) ==> s[i] != 10,
        find_nl(s, from) < s.len() ==> s[find_nl(s, from)] == 10,
    decreases s.len() - from,
{
    if from < s.len() && s[from] != 10 {
        lemma_find_nl(s, from + 1);
    }
}

/// A line with any trailing carriage return removed.
pub open spec fn strip_cr(l: Seq<u8>) -> Seq<u8> {
    if l.len() > 0 && l[l.len() - 1] == 13 {
        l.drop_last()
    } else {
        l
    }
}

/// The line decomposition of the text from `from` on: maximal runs between
/// newline bytes, each with a trailing carriage return removed, and with no
/// empty final line after a trailing newline.
pub open spec fn spec_lines_from(s: Seq<u8>, from: int) -> Seq<Seq<u8>>
    decreases s.len() + 1 - from,
    via spec_lines_from_decreases
{
    if from < 0 || from >= s.len() {
        seq![]
    } else {
        let j = find_nl(s, from);
        seq![strip_cr(s.subrange(from, j))] + spec_lines_from(s, j + 1)
    }
}

#[via_fn]
proof fn spec_lines_from_decreases(s: Seq<u8>, from: int) {
    if 0 <= from < s.len() {
        lemma_find_nl(s, from);
    }
}

/// The line decomposition of a whole text.
pub open spec fn spec_lines(s: Seq<u8>) -> Seq<Seq<u8>> {
    spec_lines_from(s, 0)
}

/// Splits the raw text into lines on newline bytes, accepting both line
/// ending conventions: a trailing carriage return is removed from each line.
pub fn split_lines(text: &Vec<u8>) -> (r: Vec<Vec<u8>>)
    ensures
        lines_view(r@) == spec_lines(text@),
{
    let mut out: Vec<Vec<u8>> = Vec::new();
    let mut i: usize = 0;
    while i < text.len()
        invariant
            0 <= i <= text@.len(),
            spec_lines(text@) == lines_view(out@) + spec_lines_from(text@, i as int),
        decreases text@.len() - i,
    {
        proof {
            lemma_find_nl(text@, i as int);
        }
        let ghost nl = find_nl(text@, i as int);
        let mut j: usize = i;
        while j < text.len() && text[j] != 10
            invariant
                i <= j <= nl <= text@.len(),
                nl == find_nl(text@, i as int),
                forall|t: int| i <= t < nl ==> text@[t] != 10,
                nl < text@.len() ==> text@[nl] == 10,
            decreases text@.len() - j,
        {
            assert(j < nl) by {
                if j == nl {
                    assert(text@[nl] != 10);
                }
            }
            j = j + 1;
        }
        assert(j == nl);
        let mut line = copy_range(text, i, j);
        if line.len() > 0 && line[line.len() - 1] == 13 {
            let _ = line.pop();
            assert(line@ =~= strip_cr(text@.subrange(i as int, nl)));
        } else {
            assert(line@ == strip_cr(text@.subrange(i as int, nl)));
        }
        let ghost prev = out@;
        out.push(line);
        proof {
            lemma_lines_view_push(prev, line);
            assert(lines_view(out@) =~= lines_view(prev).push(
                strip_cr(text@.subrange(i as int, nl)),
            ));
            assert(spec_lines_from(text@, i as int) == seq![
                strip_cr(text@.subrange(i as int, nl)),
            ] + spec_lines_from(text@, nl + 1));
            assert(spec_lines(text@) =~= lines_view(out@) + spec_lines_from(text@, nl + 1));
        }
        if j >= text.len() {
            // the final line had no newline terminator
            i = j;
            assert(spec_lines_from(text@, nl + 1) =~= spec_lines_from(text@, i as int));
        } else {
            i = j + 1;
        }
    }
    assert(spec_lines(text@) =~= lines_view(out@) + spec_lines_from(text@, i as int));
    assert(spec_lines(text@) =~= lines_view(out@));
    out
}

/// First position at or after `from` whose byte is a space or tab, skipped;
/// that is, the first position holding neither.
pub open spec fn ws_end(l: Seq<u8>, from: int) -> int
    decreases l.len() - from,
{
    if from < 0 || from >= l.len() {
        l.len() as int
    } else if l[from] == 32 || l[from] == 9 {
        ws_end(l, from + 1)
    } else {
        from
    }
}

pub proof fn lemma_ws_end(l: Seq<u8>, from: int)
    requires
        0 <= from <= l.len(),
    ensures
        from <= ws_end(l, from) <= l.len(),
        forall|i: int| from <= i < ws_end(l, from) ==> (l[i] == 32 || l[i] == 9),
        ws_end(l, from) < l.len() ==> !(l[ws_end(l, from)] == 32 || l[ws_end(l, from)] == 9),
    decreases l.len() - from,
{
    if from < l.len() && (l[from] == 32 || l[from] == 9) {
        lemma_ws_end(l, from + 1);
    }
}

/// A comment line: its first byte after leading spaces and tabs is `#`.
pub open spec fn is_comment(l: Seq<u8>) -> bool {
    let k = ws_end(l, 0);
    k < l.len() && l[k] == 35
}

/// How many leading lines of the document are searched for comments.
pub const COMMENT_WINDOW: usize = 100;

/// The lines that survive comment stripping from index `i` on: a comment
/// line is removed only inside the leading window.
pub open spec fn spec_strip_comments_from(lines: Seq<Seq<u8>>, i: int) -> Seq<Seq<u8>>
    decreases lines.len() - i,
{
    if i < 0 || i >= lines.len() {
        seq![]
    } else {
        let keep = !(i < COMMENT_WINDOW && is_comment(lines[i]));
        (if keep {
            seq![lines[i]]
        } else {
            seq![]
        }) + spec_strip_comments_from(lines, i + 1)
    }
}

pub open spec fn spec_strip_comments(lines: Seq<Seq<u8>>) -> Seq<Seq<u8>> {
    spec_strip_comments_from(lines, 0)
}

/// Removes comment lines (leading `#` after whitespace) from the first
/// `COMMENT_WINDOW` lines of the document; lines beyond that window are
/// never treated as comments.
pub fn strip_comments(lines: Vec<Vec<u8>>) -> (r: Vec<Vec<u8>>)
    ensures
        lines_view(r@) == spec_strip_comments(lines_view(lines@)),
{
    let ghost lv = lines_view(lines@);
    let mut out: Vec<Vec<u8>> = Vec::new();
    let mut i: usize = 0;
    while i < lines.len()
        invariant
            0 <= i <= lines@.len(),
            lv == lines_view(lines@),
            spec_strip_comments(lv) == lines_view(out@) + spec_strip_comments_from(lv, i as int),
        decreases lines@.len() - i,
    {
        let l = &lines[i];
        let mut keep = true;
        if i < COMMENT_WINDOW {
            proof {
                lemma_ws_end(l@, 0);
            }
            let ghost k = ws_end(l@, 0);
            let mut w: usize = 0;
            while w < l.len() && (l[w] == 32 || l[w] == 9)
                invariant
                    0 <= w <= k <= l@.len(),
                    k == ws_end(l@, 0),
                    forall|t: int| 0 <= t < k ==> (l@[t] == 32 || l@[t] == 9),
                    k < l@.len() ==> !(l@[k] == 32 || l@[k] == 9),
                decreases l@.len() - w,
            {
                assert(w < k) by {
                    if w == k {
                        assert(!(l@[k] == 32 || l@[k] == 9));
                    }
                }
                w = w + 1;
            }
            assert(w == k);
            if w < l.len() && l[w] == 35 {
                keep = false;
            }
            assert(keep == !is_comment(l@));
        }
        if keep {
            let copied = clone_line(l);
            let ghost prev = out@;
            out.push(copied);
            proof {
                lemma_lines_view_push(prev, copied);
                assert(lv[i as int] == lines@[i as int]@);
                assert(lines_view(out@) =~= lines_view(prev).push(lv[i as int]));
            }
        }
        proof {
            assert(spec_strip_comments(lv) =~= lines_view(out@) + spec_strip_comments_from(
                lv,
                i + 1,
            ));
        }
        i = i + 1;
    }
    assert(spec_strip_comments(lv) =~= lines_view(out@));
    out
}

/// The literal that opens each frame cluster segment.
pub open spec fn spec_marker() -> Seq<u8> {
    lit_bytes("frame cluster ")
}

pub fn marker_prefix() -> (r: Vec<u8>)
    ensures
        r@ == spec_marker(),
{
    proof {
        reveal_strlit("frame cluster ");
    }
    ascii_bytes("frame cluster ")
}

/// A line that starts a new cluster segment.
pub open spec fn is_marker(l: Seq<u8>) -> bool {
    spec_has_prefix(l, spec_marker())
}

/// First marker line at or after `from`, or the end.
pub open spec fn find_marker(lines: Seq<Seq<u8>>, from: int) -> int
    decreases lines.len() - from,
{
    if from < 0 || from >= lines.len() {
        lines.len() as int
    } else if is_marker(lines[from]) {
        from
    } else {
        find_marker(lines, from + 1)
    }
}

pub proof fn lemma_find_marker(lines: Seq<Seq<u8>>, from: int)
    requires
        0 <= from <= lines.len(),
    ensures
        from <= find_marker(lines, from) <= lines.len(),
        forall|i: int| from <= i < find_marker(lines, from) ==> !is_marker(lines[i]),
        find_marker(lines, from) < lines.len() ==> is_marker(lines[find_marker(lines, from)]),
    decreases lines.len() - from,
{
    if from < lines.len() && !is_marker(lines[from]) {
        lemma_find_marker(lines, from + 1);
    }
}

/// The cluster segments from marker position `from` on: each segment runs
/// from its marker line up to, and not including, the next marker line.
pub open spec fn spec_segments(lines: Seq<Seq<u8>>, from: int) -> Seq<Seq<Seq<u8>>>
    decreases lines.len() - from,
    via spec_segments_decreases
{
    if from < 0 || from >= lines.len() {
        seq![]
    } else {
        let j = find_marker(lines, from + 1);
        seq![lines.subrange(from, j)] + spec_segments(lines, j)
    }
}

#[via_fn]
proof fn spec_segments_decreases(lines: Seq<Seq<u8>>, from: int) {
    if 0 <= from < lines.len() {
        lemma_find_marker(lines, from + 1);
    }
}

/// The header part of the segmentation: every line before the first marker.
pub open spec fn spec_header_part(lines: Seq<Seq<u8>>) -> Seq<Seq<u8>> {
    lines.subrange(0, find_marker(lines, 0))
}

/// The cluster part of the segmentation, in first-appearance order.
pub open spec fn spec_cluster_part(lines: Seq<Seq<u8>>) -> Seq<Seq<Seq<u8>>> {
    spec_segments(lines, find_marker(lines, 0))
}

/// The Segmenter: splits the document's lines into the header segment (all
/// lines before the first cluster marker) and one segment per cluster
/// marker, each running to the next marker, in original order.
pub fn split_yaml(lines: &Vec<Vec<u8>>) -> (r: (Vec<Vec<u8>>, Vec<Vec<Vec<u8>>>))
    ensures
        lines_view(r.0@) == spec_header_part(lines_view(lines@)),
        segs_view(r.1@) == spec_cluster_part(lines_view(lines@)),
{
    let ghost lv = lines_view(lines@);
    let marker = marker_prefix();

    proof {
        lemma_find_marker(lv, 0);
    }
    let ghost h = find_marker(lv, 0);
    // the header: lines before the first marker
    let mut header: Vec<Vec<u8>> = Vec::new();
    let mut i: usize = 0;
    while i < lines.len() && !has_prefix(&lines[i], &marker)
        invariant
            0 <= i <= h <= lines@.len(),
            lv == lines_view(lines@),
            marker@ == spec_marker(),
            h == find_marker(lv, 0),
            forall|t: int| 0 <= t < h ==> !is_marker(lv[t]),
            h < lv.len() ==> is_marker(lv[h]),
            lines_view(header@) =~= lv.subrange(0, i as int),
        decreases lines@.len() - i,
    {
        assert(lv[i as int] == lines@[i as int]@);
        assert(i < h) by {
            if i == h {
                assert(!is_marker(lv[i as int]));
            }
        }
        let copied = clone_line(&lines[i]);
        let ghost prev = header@;
        header.push(copied);
        i = i + 1;
        proof {
            lemma_lines_view_push(prev, copied);
            assert(lines_view(header@) =~= lv.subrange(0, i as int));
        }
    }
    assert(i == h) by {
        if i < lines@.len() {
            assert(lv[i as int] == lines@[i as int]@);
        }
    }

    // the segments: each marker starts one
    let mut segments: Vec<Vec<Vec<u8>>> = Vec::new();
    while i < lines.len()
        invariant
            h <= i <= lines@.len(),
            lv == lines_view(lines@),
            marker@ == spec_marker(),
            h == find_marker(lv, 0),
            i < lv.len() ==> is_marker(lv[i as int]),
            i == lv.len() || i >= h,
            spec_segments(lv, h) == segs_view(segments@) + spec_segments(lv, i as int),
        decreases lines@.len() - i,
    {
        proof {
            lemma_find_marker(lv, i + 1);
        }
        let ghost nxt = find_marker(lv, i + 1);
        let mut seg: Vec<Vec<u8>> = Vec::new();
        let copied = clone_line(&lines[i]);
        seg.push(copied);
        let mut j: usize = i + 1;
        proof {
            lemma_lines_view_push(Seq::empty(), copied);
            assert(lv[i as int] == lines@[i as int]@);
            assert(lines_view(seg@) =~= lv.subrange(i as int, j as int));
        }
        while j < lines.len() && !has_prefix(&lines[j], &marker)
            invariant
                i + 1 <= j <= nxt <= lines@.len(),
                lv == lines_view(lines@),
                marker@ == spec_marker(),
                nxt == find_marker(lv, i + 1),
                forall|t: int| i + 1 <= t < nxt ==> !is_marker(lv[t]),
                nxt < lv.len() ==> is_marker(lv[nxt]),
                lines_view(seg@) =~= lv.subrange(i as int, j as int),
            decreases lines@.len() - j,
        {
            assert(lv[j as int] == lines@[j as int]@);
            assert(j < nxt) by {
                if j == nxt {
                    assert(!is_marker(lv[j as int]));
                }
            }
            let copied = clone_line(&lines[j]);
            let ghost prev = seg@;
            seg.push(copied);
            j = j + 1;
            proof {
                lemma_lines_view_push(prev, copied);
                assert(lines_view(seg@) =~= lv.subrange(i as int, j as int));
            }
        }
        assert(j == nxt) by {
            if j < lines@.len() {
                assert(lv[j as int] == lines@[j as int]@);
            }
        }
        let ghost prev_segs = segments@;
        let ghost seg_snapshot = seg;
        segments.push(seg);
        proof {
            lemma_segs_view_push(prev_segs, seg_snapshot);
            assert(lines_view(seg_snapshot@) =~= lv.subrange(i as int, nxt));
            assert(segs_view(segments@) =~= segs_view(prev_segs).push(
                lv.subrange(i as int, nxt),
            ));
            assert(spec_segments(lv, i as int) == seq![lv.subrange(i as int, nxt)]
                + spec_segments(lv, nxt));
            assert(spec_segments(lv, h) =~= segs_view(segments@) + spec_segments(lv, nxt));
        }
        i = j;
    }
    assert(spec_segments(lv, h) =~= segs_view(segments@));
    assert(lines_view(header@) =~= spec_header_part(lv));
    (header, segments)
}

} // verus!
