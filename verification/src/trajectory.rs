use vstd::prelude::*;

use crate::cluster::{
    cluster_matches, decode_result_matches, spec_decode_cluster, FrameCluster,
};
use crate::error::{DecodeError, ErrorKind};
use crate::header::{parse_header, spec_parse_header, Header};
use crate::lines::{
    lines_view, spec_cluster_part, spec_header_part, spec_lines, spec_strip_comments, split_lines,
    split_yaml, strip_comments,
};
use crate::reconstruct::{
    calc_matches, ranges_ok, reconstruct, rows_span, structural_ok, Axis, Calculated,
};
use crate::support;

verus! {

/// The document-level metadata section. Its values are not retained by the
/// decoder; the struct records only that the section was present.
#[derive(Clone, Copy, Debug, PartialEq, Eq, Structural)]
pub struct Metadata {}

/// An ordered, append-only sequence of human-readable stage messages,
/// recorded while decoding. Observational only: no decoding result depends
/// on it.
#[derive(Debug)]
pub struct Diagnostics {
    pub messages: Vec<String>,
}

impl Diagnostics {
    pub fn new() -> (r: Diagnostics)
        ensures
            r.messages@.len() == 0,
    {
        Diagnostics { messages: Vec::new() }
    }

    pub fn add(&mut self, message: String)
        ensures
            final(self).messages@ == old(self).messages@.push(message),
    {
        self.messages.push(message);
    }

    /// The messages, copied in emission order.
    pub fn iter(&self) -> (r: Vec<String>)
        ensures
            r@.len() == self.messages@.len(),
            forall|i: int| 0 <= i < r@.len() ==> (#[trigger] r@[i])@ == self.messages@[i]@,
    {
        let mut out: Vec<String> = Vec::new();
        let mut i: usize = 0;
        while i < self.messages.len()
            invariant
                0 <= i <= self.messages@.len(),
                out@.len() == i,
                forall|t: int| 0 <= t < i ==> (#[trigger] out@[t])@ == self.messages@[t]@,
            decreases self.messages@.len() - i,
        {
            out.push(self.messages[i].clone());
            i = i + 1;
        }
        out
    }

    pub fn messages(&self) -> (r: &Vec<String>)
        ensures
            r == &self.messages,
    {
        &self.messages
    }
}

/// The assembled trajectory: the header, the optional document metadata
/// marker, the decoded clusters in index order, and, once reconstruction
/// has run, the absolute positions.
#[derive(Debug)]
pub struct MrSimTxt {
    pub specification: Option<Vec<Vec<u8>>>,
    pub header: Header,
    pub metadata: Option<Metadata>,
    pub clusters: Vec<FrameCluster>,
    pub calculated: Calculated,
}

impl MrSimTxt {
    pub fn specification(&self) -> (r: Option<&Vec<Vec<u8>>>)
        ensures
            (r is Some) == (self.specification is Some),
            r is Some ==> r->0 == &self.specification->0,
    {
        match &self.specification {
            Some(v) => Some(v),
            None => None,
        }
    }

    pub fn header(&self) -> (r: &Header)
        ensures
            r == &self.header,
    {
        &self.header
    }

    pub fn metadata(&self) -> (r: Option<&Metadata>)
        ensures
            (r is Some) == (self.metadata is Some),
    {
        match &self.metadata {
            Some(m) => Some(m),
            None => None,
        }
    }

    /// The decoded clusters; the position in this vector is the cluster
    /// index, and cluster `k` covers frames from `k * frame_cluster_size`.
    pub fn clusters(&self) -> (r: &Vec<FrameCluster>)
        ensures
            r == &self.clusters,
    {
        &self.clusters
    }

    pub fn calculated(&self) -> (r: &Calculated)
        ensures
            r == &self.calculated,
    {
        &self.calculated
    }

    /// Every cluster is well-formed at its own index, under the header's
    /// cluster size.
    pub open spec fn wf(self) -> bool {
        forall|k: int|
            0 <= k < self.clusters@.len() ==> (#[trigger] self.clusters@[k]).wf(
                k,
                self.header.frame_cluster_size as int,
            )
    }

    /// The chosen axis of the reconstructed positions.
    pub open spec fn spec_calc_axis(self, ax: Axis) -> Seq<Vec<i32>> {
        match ax {
            Axis::X => self.calculated.x@,
            Axis::Y => self.calculated.y@,
            Axis::Z => self.calculated.z@,
        }
    }

    /// The absolute quantized coordinate of `atom` on `ax` at the global
    /// frame index `frame`, if reconstruction produced one.
    pub fn coordinate_at(&self, ax: Axis, atom: usize, frame: usize) -> (r: Option<i32>)
        ensures
            (r is Some) == (atom < self.spec_calc_axis(ax).len() && frame < self.spec_calc_axis(
                ax,
            )[atom as int]@.len()),
            r is Some ==> r->0 == self.spec_calc_axis(ax)[atom as int]@[frame as int],
    {
        let rows: &Vec<Vec<i32>> = match ax {
            Axis::X => &self.calculated.x,
            Axis::Y => &self.calculated.y,
            Axis::Z => &self.calculated.z,
        };
        if atom < rows.len() && frame < rows[atom].len() {
            Some(rows[atom][frame])
        } else {
            None
        }
    }

    /// The same lookup by cluster index and relative frame index, translated
    /// through the header's cluster size.
    pub fn coordinate_in_cluster(&self, ax: Axis, cluster: usize, rel_frame: usize, atom: usize)
        -> (r: Option<i32>)
        ensures
            cluster * self.header.frame_cluster_size + rel_frame <= usize::MAX ==> ({
                let g = cluster * self.header.frame_cluster_size + rel_frame;
                &&& (r is Some) == (atom < self.spec_calc_axis(ax).len() && g
                    < self.spec_calc_axis(ax)[atom as int]@.len())
                &&& (r is Some ==> r->0 == self.spec_calc_axis(ax)[atom as int]@[g])
            }),
            cluster * self.header.frame_cluster_size + rel_frame > usize::MAX ==> r is None,
    {
        match cluster.checked_mul(self.header.frame_cluster_size) {
            Some(base) => match base.checked_add(rel_frame) {
                Some(g) => self.coordinate_at(ax, atom, g),
                None => None,
            },
            None => None,
        }
    }
}

/// The message `m` is one stage message under `label`: it begins with that
/// label; the rest (the recorded timing or count) stays free.
pub open spec fn stage_labeled(m: String, label: &str) -> bool {
    m@.len() >= label@.len() && m@.subrange(0, label@.len() as int) == label@
}

/// First segment whose decoding fails, at or after `from`, or the number of
/// segments when all decode.
pub open spec fn first_bad(segs: Seq<Seq<Seq<u8>>>, size: int, from: int) -> int
    decreases segs.len() - from,
{
    if from < 0 || from >= segs.len() {
        segs.len() as int
    } else if spec_decode_cluster(segs[from], from, size) is Err {
        from
    } else {
        first_bad(segs, size, from + 1)
    }
}

pub proof fn lemma_first_bad(segs: Seq<Seq<Seq<u8>>>, size: int, from: int)
    requires
        0 <= from <= segs.len(),
    ensures
        from <= first_bad(segs, size, from) <= segs.len(),
        forall|i: int|
            from <= i < first_bad(segs, size, from) ==> spec_decode_cluster(
                segs[i],
                i,
                size,
            ) is Ok,
        first_bad(segs, size, from) < segs.len() ==> spec_decode_cluster(
            segs[first_bad(segs, size, from)],
            first_bad(segs, size, from),
            size,
        ) is Err,
    decreases segs.len() - from,
{
    if from < segs.len() && !(spec_decode_cluster(segs[from], from, size) is Err) {
        lemma_first_bad(segs, size, from + 1);
    }
}

/// The document's lines after preprocessing: line splitting, then comment
/// stripping inside the leading window.
pub open spec fn doc_lines(bytes: Seq<u8>) -> Seq<Seq<u8>> {
    spec_strip_comments(spec_lines(bytes))
}

/// The whole decode succeeds: the header parses, and every cluster segment
/// decodes at its physical position.
pub open spec fn spec_parse_ok(bytes: Seq<u8>) -> bool {
    let lv = doc_lines(bytes);
    let hl = spec_header_part(lv);
    let segs = spec_cluster_part(lv);
    &&& spec_parse_header(hl) is Ok
    &&& first_bad(segs, spec_parse_header(hl)->Ok_0.0.frame_cluster_size as int, 0) == segs.len()
}

/// What `parse` returns for the document `bytes`. On success the trajectory
/// carries the parsed header, the metadata marker, the specification
/// reference line, and every cluster's decoded data, in index order, with
/// nothing yet reconstructed. On failure the error is the one the grammar
/// assigns: the header parser's, or the first failing cluster's, named for
/// its cluster.
pub open spec fn parse_result_matches(
    bytes: Seq<u8>,
    r: Result<(MrSimTxt, Diagnostics), DecodeError>,
) -> bool {
    let lv = doc_lines(bytes);
    let hl = spec_header_part(lv);
    let segs = spec_cluster_part(lv);
    let hr = spec_parse_header(hl);
    let size = hr->Ok_0.0.frame_cluster_size as int;
    let bad = first_bad(segs, size, 0);
    &&& (r is Ok) == spec_parse_ok(bytes)
    &&& (r is Ok ==> {
        let d = r->Ok_0.1;
        &&& d.messages@.len() == 4
        &&& stage_labeled(d.messages@[0], "Preprocessed text in ms")
        &&& stage_labeled(d.messages@[1], "Parsed header in ms")
        &&& stage_labeled(d.messages@[2], "Parsed clusters in ms")
        &&& stage_labeled(d.messages@[3], "Using threads")
    })
    &&& (r is Ok ==> {
        let m = r->Ok_0.0;
        &&& m.header == hr->Ok_0.0
        &&& (m.metadata is Some) == hr->Ok_0.1
        &&& m.specification is Some
        &&& m.specification->0@.len() == 1
        &&& m.specification->0@[0]@ == hl[1]
        &&& m.clusters@.len() == segs.len()
        &&& forall|i: int|
            0 <= i < segs.len() ==> cluster_matches(
                #[trigger] m.clusters@[i],
                spec_decode_cluster(segs[i], i, size)->Ok_0,
            )
        &&& m.wf()
        &&& m.calculated.x@.len() == 0
        &&& m.calculated.y@.len() == 0
        &&& m.calculated.z@.len() == 0
        &&& m.calculated.elements@.len() == 0
        &&& m.calculated.flags@.len() == 0
    })
    &&& (r is Err && hr is Err ==> r->Err_0.is_at(hr->Err_0) && r->Err_0.cluster is None)
    &&& (r is Err && hr is Ok ==> bad < segs.len() && r->Err_0.is_at(
        spec_decode_cluster(segs[bad], bad, size)->Err_0,
    ) && r->Err_0.cluster == Some(bad as usize))
}

/// The main decoding pipeline: segments the document, parses the header,
/// decodes every cluster segment in parallel, and assembles the trajectory
/// in cluster-index order. The assembled value is a function of the input
/// bytes alone, whatever the parallel schedule.
pub fn parse(text: &Vec<u8>) -> (r: Result<(MrSimTxt, Diagnostics), DecodeError>)
    ensures
        parse_result_matches(text@, r),
{
    let mut diagnostics = Diagnostics::new();
    let t0 = support::now_unix_millis();

    let all_lines = split_lines(text);
    let stripped = strip_comments(all_lines);
    let pair = split_yaml(&stripped);
    let header_lines = pair.0;
    let segments = pair.1;
    let t1 = support::now_unix_millis();
    diagnostics.add(support::stage_message("Preprocessed text in ms", t1.saturating_sub(t0)));

    let ghost lv = doc_lines(text@);
    assert(lines_view(header_lines@) == spec_header_part(lv));
    assert(crate::lines::segs_view(segments@) == spec_cluster_part(lv));

    let triple = match parse_header(&header_lines) {
        Ok(h) => h,
        Err(e) => {
            return Err(e);
        },
    };
    let header = triple.0;
    let metadata_present = triple.1;
    let spec_line = triple.2;
    let t2 = support::now_unix_millis();
    diagnostics.add(support::stage_message("Parsed header in ms", t2.saturating_sub(t1)));

    let ghost segs = spec_cluster_part(lv);
    let ghost size = header.frame_cluster_size as int;
    let mut results = support::decode_clusters_parallel(&segments, header.frame_cluster_size);
    let t3 = support::now_unix_millis();
    diagnostics.add(support::stage_message("Parsed clusters in ms", t3.saturating_sub(t2)));
    diagnostics.add(support::stage_message("Using threads", support::thread_count() as u64));

    proof {
        lemma_first_bad(segs, size, 0);
        assert forall|i: int| 0 <= i < segs.len() implies segs[i] == lines_view(
            #[trigger] segments@[i]@,
        ) by {
            assert(crate::lines::segs_view(segments@)[i] == lines_view(segments@[i]@));
        }
    }
    let ghost all_results = results@;
    let n_segments = results.len();
    let mut clusters: Vec<FrameCluster> = Vec::new();
    let mut i: usize = 0;
    while i < n_segments
        invariant
            0 <= i <= n_segments == all_results.len() == segs.len(),
            lv == doc_lines(text@),
            segs == spec_cluster_part(lv),
            spec_parse_header(spec_header_part(lv)) is Ok,
            header == spec_parse_header(spec_header_part(lv))->Ok_0.0,
            size == header.frame_cluster_size as int,
            results@ =~= all_results.subrange(i as int, n_segments as int),
            forall|t: int|
                0 <= t < all_results.len() ==> decode_result_matches(
                    segs[t],
                    t,
                    size,
                    #[trigger] all_results[t],
                ),
            forall|t: int|
                0 <= t < all_results.len() && (#[trigger] all_results[t]) is Ok
                    ==> all_results[t]->Ok_0.wf(t, size),
            clusters@.len() == i,
            forall|t: int|
                0 <= t < i ==> (#[trigger] all_results[t]) is Ok && clusters@[t]
                    == all_results[t]->Ok_0,
        decreases n_segments - i,
    {
        let first = results.remove(0);
        assert(first == all_results[i as int]);
        match first {
            Ok(c) => {
                clusters.push(c);
            },
            Err(e) => {
                proof {
                    lemma_first_bad(segs, size, 0);
                    let fb = first_bad(segs, size, 0);
                    assert(spec_decode_cluster(segs[i as int], i as int, size) is Err);
                    if fb > i {
                        assert(spec_decode_cluster(segs[i as int], i as int, size) is Ok);
                    }
                    if fb < i {
                        assert(all_results[fb] is Ok);
                        assert(spec_decode_cluster(segs[fb], fb, size) is Ok);
                    }
                    assert(fb == i);
                }
                return Err(e);
            },
        }
        i = i + 1;
    }
    assert(first_bad(segs, size, 0) == segs.len()) by {
        lemma_first_bad(segs, size, 0);
        let fb = first_bad(segs, size, 0);
        if fb < segs.len() {
            assert(all_results[fb] is Ok);
            assert(spec_decode_cluster(segs[fb], fb, size) is Ok);
        }
    }

    let calculated = Calculated {
        x: Vec::new(),
        y: Vec::new(),
        z: Vec::new(),
        elements: Vec::new(),
        flags: Vec::new(),
    };
    let mut spec_lines_field: Vec<Vec<u8>> = Vec::new();
    spec_lines_field.push(spec_line);
    let m = MrSimTxt {
        specification: Some(spec_lines_field),
        header,
        metadata: if metadata_present {
            Some(Metadata {  })
        } else {
            None
        },
        clusters,
        calculated,
    };
    assert forall|t: int| 0 <= t < segs.len() implies cluster_matches(
        #[trigger] m.clusters@[t],
        spec_decode_cluster(segs[t], t, size)->Ok_0,
    ) by {
        assert(all_results[t] is Ok);
        assert(decode_result_matches(segs[t], t, size, all_results[t]));
        assert(m.clusters@[t] == all_results[t]->Ok_0);
    }
    assert(m.wf()) by {
        assert forall|k: int|
            0 <= k < m.clusters@.len() implies (#[trigger] m.clusters@[k]).wf(
            k,
            m.header.frame_cluster_size as int,
        ) by {
            assert(all_results[k] is Ok && m.clusters@[k] == all_results[k]->Ok_0);
        }
    }
    Ok((m, diagnostics))
}

/// The decoded document with its diagnostics, and whether the absolute
/// coordinates have been reconstructed.
#[derive(Debug)]
pub struct ParsedData {
    pub data: MrSimTxt,
    pub diagnostics: Diagnostics,
    pub has_calculated_coordinates: bool,
}

impl ParsedData {
    pub open spec fn wf(self) -> bool {
        self.data.wf()
    }

    pub fn data(&self) -> (r: &MrSimTxt)
        ensures
            r == &self.data,
    {
        &self.data
    }

    pub fn diagnostics(&self) -> (r: &Diagnostics)
        ensures
            r == &self.diagnostics,
    {
        &self.diagnostics
    }

    /// Decodes a whole document.
    pub fn new(yaml_data: &Vec<u8>) -> (r: Result<ParsedData, DecodeError>)
        ensures
            (r is Ok) == spec_parse_ok(yaml_data@),
            r is Ok ==> parse_result_matches(
                yaml_data@,
                Ok((r->Ok_0.data, r->Ok_0.diagnostics)),
            ) && r->Ok_0.wf() && !r->Ok_0.has_calculated_coordinates,
            r is Err ==> parse_result_matches(yaml_data@, Err(r->Err_0)),
    {
        match parse(yaml_data) {
            Ok(pair) => {
                let (data, diagnostics) = pair;
                Ok(ParsedData { data, diagnostics, has_calculated_coordinates: false })
            },
            Err(e) => Err(e),
        }
    }

    /// The Position Reconstructor's entry point: verifies the cross-cluster
    /// invariants and fills `calculated` with the absolute quantized
    /// positions of the whole trajectory. On failure, nothing changes.
    pub fn calculate_positions(&mut self) -> (r: Result<(), DecodeError>)
        requires
            old(self).wf(),
        ensures
            final(self).wf(),
            (r is Ok) == (structural_ok(
                old(self).data.clusters@,
                old(self).data.header.frame_count as int,
            ) && ranges_ok(old(self).data.clusters@)),
            r is Ok ==> calc_matches(final(self).data.calculated, old(self).data.clusters@)
                && final(self).has_calculated_coordinates,
            r is Ok ==> rows_span(
                final(self).data.calculated.x@,
                old(self).data.header.frame_count as int,
            ) && rows_span(
                final(self).data.calculated.y@,
                old(self).data.header.frame_count as int,
            ) && rows_span(
                final(self).data.calculated.z@,
                old(self).data.header.frame_count as int,
            ),
            r is Ok ==> final(self).data.header == old(self).data.header,
            r is Ok ==> final(self).data.clusters == old(self).data.clusters,
            r is Ok ==> final(self).data.specification == old(self).data.specification,
            r is Ok ==> final(self).data.metadata == old(self).data.metadata,
            r is Ok ==> final(self).diagnostics == old(self).diagnostics,
            r is Err ==> *final(self) == *old(self),
            r is Err && !structural_ok(
                old(self).data.clusters@,
                old(self).data.header.frame_count as int,
            ) ==> r->Err_0.kind == ErrorKind::Consistency,
            r is Err && structural_ok(
                old(self).data.clusters@,
                old(self).data.header.frame_count as int,
            ) ==> r->Err_0.kind == ErrorKind::NumericParse,
    {
        let ghost cs = self.data.clusters@;
        let ghost fc = self.data.header.frame_count as int;
        let ghost size = self.data.header.frame_cluster_size as int;
        let calc = match reconstruct(&self.data.clusters, self.data.header.frame_count) {
            Ok(c) => c,
            Err(e) => {
                return Err(e);
            },
        };
        proof {
            assert forall|k: int| 0 <= k < cs.len() implies (#[trigger] cs[k]).atoms.wf(
                cs[k].spec_frames(),
            ) && cs[k].frame_start <= cs[k].frame_end by {
                assert(cs[k].wf(k, size));
            }
            if cs.len() > 0 {
                assert(cs[0].wf(0, size));
                assert(cs[0].frame_start == 0) by {
                    assert(0 * size == 0) by (nonlinear_arith);
                }
            }
            assert forall|a: int|
                0 <= a < calc.x@.len() implies (#[trigger] calc.x@[a])@.len() == fc by {
                crate::laws::lemma_positions_span_all_frames(calc, cs, fc, Axis::X, a);
            }
            assert forall|a: int|
                0 <= a < calc.y@.len() implies (#[trigger] calc.y@[a])@.len() == fc by {
                crate::laws::lemma_positions_span_all_frames(calc, cs, fc, Axis::Y, a);
            }
            assert forall|a: int|
                0 <= a < calc.z@.len() implies (#[trigger] calc.z@[a])@.len() == fc by {
                crate::laws::lemma_positions_span_all_frames(calc, cs, fc, Axis::Z, a);
            }
        }
        self.data.calculated = calc;
        self.has_calculated_coordinates = true;
        Ok(())
    }

    /// Reclaims the memory of the original per-cluster delta arrays, once
    /// the absolute positions exist. Without them it does nothing.
    pub fn discard_original_clusters(&mut self)
        requires
            old(self).wf(),
        ensures
            old(self).has_calculated_coordinates ==> final(self).data.clusters@.len() == 0,
            !old(self).has_calculated_coordinates ==> *final(self) == *old(self),
            final(self).data.header == old(self).data.header,
            final(self).data.metadata == old(self).data.metadata,
            final(self).data.specification == old(self).data.specification,
            final(self).data.calculated == old(self).data.calculated,
            final(self).diagnostics == old(self).diagnostics,
            final(self).has_calculated_coordinates == old(self).has_calculated_coordinates,
            final(self).wf(),
    {
        if self.has_calculated_coordinates {
            self.data.clusters.clear();
        }
    }
}

} // verus!
