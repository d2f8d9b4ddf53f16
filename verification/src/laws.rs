use vstd::prelude::*;

use crate::cluster::{cluster_matches, coords_view, ClusterModel, FrameCluster};
use crate::error::DecodeError;
use crate::reconstruct::{
    calc_axis, calc_matches, lemma_stored_len, reconstruct_result_matches, stored_axis,
    structural_ok, sum_to, tags_ok, Axis, Calculated,
};
use crate::error::ErrorKind;
use crate::header::{
    header_expected, header_line_valid, header_prefix_met, lemma_header_grammar_rejects,
};
use crate::lines::spec_header_part;
use crate::trajectory::{doc_lines, parse_result_matches, Diagnostics, MrSimTxt};

verus! {

/// The spec-level image of one decoded cluster's data.
pub open spec fn cluster_view(c: FrameCluster) -> ClusterModel {
    ClusterModel {
        frame_start: c.frame_start as int,
        frame_end: c.frame_end as int,
        has_metadata: c.has_metadata,
        x: coords_view(c.atoms.x_coordinates@),
        y: coords_view(c.atoms.y_coordinates@),
        z: coords_view(c.atoms.z_coordinates@),
        elements: c.atoms.elements@,
        flags: c.atoms.flags@,
    }
}

/// Round-trip determinism: two decodes of the same document agree. They
/// succeed or fail together; on success the assembled trajectories carry
/// identical headers, metadata markers, specification lines and per-cluster
/// data, and on failure the errors report the same kind, line and cluster.
/// Since every decode satisfies `parse_result_matches`, whatever its
/// parallel schedule, the assembled value is independent of the order in
/// which clusters were decoded or how many workers ran.
pub proof fn lemma_decode_deterministic(
    bytes: Seq<u8>,
    r1: Result<(MrSimTxt, Diagnostics), DecodeError>,
    r2: Result<(MrSimTxt, Diagnostics), DecodeError>,
)
    requires
        parse_result_matches(bytes, r1),
        parse_result_matches(bytes, r2),
    ensures
        (r1 is Ok) == (r2 is Ok),
        r1 is Ok ==> {
            let m1 = r1->Ok_0.0;
            let m2 = r2->Ok_0.0;
            &&& m1.header == m2.header
            &&& (m1.metadata is Some) == (m2.metadata is Some)
            &&& m1.specification->0@[0]@ == m2.specification->0@[0]@
            &&& m1.clusters@.len() == m2.clusters@.len()
            &&& forall|i: int|
                0 <= i < m1.clusters@.len() ==> cluster_view(#[trigger] m1.clusters@[i])
                    == cluster_view(m2.clusters@[i])
        },
        r1 is Err ==> r1->Err_0.kind == r2->Err_0.kind && r1->Err_0.line == r2->Err_0.line
            && r1->Err_0.cluster == r2->Err_0.cluster && r1->Err_0.expected@
            == r2->Err_0.expected@,
{
    if r1 is Ok {
        let m1 = r1->Ok_0.0;
        let m2 = r2->Ok_0.0;
        assert forall|i: int| 0 <= i < m1.clusters@.len() implies cluster_view(
            #[trigger] m1.clusters@[i],
        ) == cluster_view(m2.clusters@[i]) by {
            assert(cluster_matches(m1.clusters@[i], cluster_view(m1.clusters@[i])));
            assert(cluster_matches(m2.clusters@[i], cluster_view(m2.clusters@[i])));
        }
    }
}

/// Rejection of a malformed header: where every earlier line of the fixed
/// header grammar is valid and line `j` lacks its required literal prefix
/// (or is not blank where a blank separator is demanded), the decode fails
/// with a structural-format error naming exactly line `j` and carrying the
/// expected text, attributed to no cluster; no trajectory is surfaced.
pub proof fn lemma_header_prefix_rejected(
    bytes: Seq<u8>,
    r: Result<(MrSimTxt, Diagnostics), DecodeError>,
    j: int,
)
    requires
        parse_result_matches(bytes, r),
        0 <= j < 12,
        !header_prefix_met(spec_header_part(doc_lines(bytes)), j),
        forall|t: int| 0 <= t < j ==> header_line_valid(spec_header_part(doc_lines(bytes)), t),
    ensures
        r is Err,
        r->Err_0.kind == ErrorKind::StructuralFormat,
        r->Err_0.line == j,
        r->Err_0.expected@ == header_expected(j),
        r->Err_0.cluster is None,
{
    lemma_header_grammar_rejects(spec_header_part(doc_lines(bytes)), j);
}

/// Invariant enforcement: a cluster whose `elements` or `flags` arrays
/// differ from cluster 0's makes reconstruction fail with a consistency
/// error; the tag arrays are never silently overwritten, since on success
/// they are exactly cluster 0's.
pub proof fn lemma_tag_mismatch_rejected(
    cs: Seq<FrameCluster>,
    frame_count: int,
    r: Result<Calculated, DecodeError>,
)
    requires
        reconstruct_result_matches(cs, frame_count, r),
        !tags_ok(cs),
    ensures
        r is Err,
        r->Err_0.kind == ErrorKind::Consistency,
{
}

/// Delta reconstruction correctness: for every atom and axis, the
/// reconstructed absolute sequence is the prefix sum of the stored stream
/// across all cluster boundaries. The first reconstructed value is the first
/// stored value (the absolute position), and each later one is the previous
/// absolute position plus that frame's stored delta.
pub proof fn lemma_delta_reconstruction(
    calc: Calculated,
    cs: Seq<FrameCluster>,
    ax: Axis,
    a: int,
    f: int,
)
    requires
        calc_matches(calc, cs),
        0 <= a < calc_axis(calc, ax).len(),
        0 <= f < calc_axis(calc, ax)[a]@.len(),
    ensures
        calc_axis(calc, ax)[a]@[f] == sum_to(stored_axis(cs, ax, a), f + 1),
        f == 0 ==> calc_axis(calc, ax)[a]@[0] == stored_axis(cs, ax, a)[0],
        f > 0 ==> calc_axis(calc, ax)[a]@[f] == calc_axis(calc, ax)[a]@[f - 1] + stored_axis(
            cs,
            ax,
            a,
        )[f],
{
    let rows = calc_axis(calc, ax);
    let stream = stored_axis(cs, ax, a);
    assert(rows[a]@[f] == sum_to(stream, f + 1));
    if f == 0 {
        assert(sum_to(stream, 1) == sum_to(stream, 0) + stream[0]);
    } else {
        assert(rows[a]@[f - 1] == sum_to(stream, f));
        assert(sum_to(stream, f + 1) == sum_to(stream, f) + stream[f]);
    }
}

/// Full-span reconstruction: under the cross-cluster invariants, every
/// reconstructed row holds one absolute position for every frame of the
/// trajectory, from frame zero up to the declared frame count.
pub proof fn lemma_positions_span_all_frames(
    calc: Calculated,
    cs: Seq<FrameCluster>,
    frame_count: int,
    ax: Axis,
    a: int,
)
    requires
        calc_matches(calc, cs),
        structural_ok(cs, frame_count),
        forall|k: int| 0 <= k < cs.len() ==> (#[trigger] cs[k]).atoms.wf(cs[k].spec_frames()),
        forall|k: int| 0 <= k < cs.len() ==> #[trigger] cs[k].frame_start <= cs[k].frame_end,
        cs.len() > 0 ==> cs[0].frame_start == 0,
        0 <= a < calc_axis(calc, ax).len(),
    ensures
        calc_axis(calc, ax)[a]@.len() == frame_count,
{
    assert forall|k: int| 0 <= k < cs.len() implies a < (#[trigger] cs[k])
        .atoms
        .x_coordinates@
        .len() by {
        assert(cs[k].atoms.x_coordinates@.len() == cs[0].atoms.x_coordinates@.len());
    }
    lemma_stored_len(cs, ax, a);
    if cs.len() == 0 {
        assert(frame_count == 0);
    }
}

} // verus!
