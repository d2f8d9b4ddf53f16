use vstd::prelude::*;

use crate::cluster::FrameCluster;
use crate::error::{DecodeError, ErrorKind};
use crate::text::bytes_eq;

verus! {

/// One of the three coordinate axes.
#[derive(Clone, Copy, Debug, PartialEq, Eq, Structural)]
pub enum Axis {
    X,
    Y,
    Z,
}

/// The chosen axis's per-atom rows of one cluster.
pub open spec fn cluster_axis(c: FrameCluster, ax: Axis) -> Seq<Vec<i32>> {
    match ax {
        Axis::X => c.atoms.x_coordinates@,
        Axis::Y => c.atoms.y_coordinates@,
        Axis::Z => c.atoms.z_coordinates@,
    }
}

/// The stored values of atom `a` on axis `ax`, concatenated across the
/// clusters in index order: the whole trajectory's encoded stream for that
/// atom and axis.
pub open spec fn stored_axis(cs: Seq<FrameCluster>, ax: Axis, a: int) -> Seq<i32>
    decreases cs.len(),
{
    if cs.len() == 0 {
        seq![]
    } else {
        stored_axis(cs.drop_last(), ax, a) + cluster_axis(cs.last(), ax)[a]@
    }
}

/// The sum of the first `n` stored values: with the first value absolute
/// and every later one a delta, this is the absolute value after `n` steps.
pub open spec fn sum_to(s: Seq<i32>, n: int) -> int
    decreases n,
{
    if n <= 0 {
        0
    } else {
        sum_to(s, n - 1) + s[n - 1]
    }
}

/// Every cluster reports the atom count of cluster 0.
pub open spec fn counts_ok(cs: Seq<FrameCluster>) -> bool {
    forall|k: int|
        0 <= k < cs.len() ==> #[trigger] cs[k].atoms.x_coordinates@.len()
            == cs[0].atoms.x_coordinates@.len()
}

/// Every cluster carries cluster 0's tag arrays unchanged.
pub open spec fn tags_ok(cs: Seq<FrameCluster>) -> bool {
    forall|k: int|
        0 <= k < cs.len() ==> #[trigger] cs[k].atoms.elements@ == cs[0].atoms.elements@
            && cs[k].atoms.flags@ == cs[0].atoms.flags@
}

/// The clusters cover frames `0 .. frame_count` contiguously, in order.
pub open spec fn coverage_ok(cs: Seq<FrameCluster>, frame_count: int) -> bool {
    &&& (cs.len() == 0 ==> frame_count == 0)
    &&& (cs.len() > 0 ==> cs[cs.len() - 1].frame_end + 1 == frame_count)
    &&& forall|k: int| 1 <= k < cs.len() ==> #[trigger] cs[k].frame_start == cs[k - 1].frame_end + 1
}

/// The cross-cluster invariants that reconstruction checks.
pub open spec fn structural_ok(cs: Seq<FrameCluster>, frame_count: int) -> bool {
    counts_ok(cs) && tags_ok(cs) && coverage_ok(cs, frame_count)
}

/// Every running sum along the chosen axis stays inside `i32`.
pub open spec fn axis_ranges_ok(cs: Seq<FrameCluster>, ax: Axis) -> bool {
    forall|a: int, f: int|
        0 <= a < (if cs.len() == 0 {
            0int
        } else {
            cs[0].atoms.x_coordinates@.len() as int
        }) && 0 <= f < stored_axis(cs, ax, a).len() ==> i32::MIN <= #[trigger] sum_to(
            stored_axis(cs, ax, a),
            f + 1,
        ) <= i32::MAX
}

pub open spec fn ranges_ok(cs: Seq<FrameCluster>) -> bool {
    axis_ranges_ok(cs, Axis::X) && axis_ranges_ok(cs, Axis::Y) && axis_ranges_ok(cs, Axis::Z)
}

/// Under contiguous coverage, the concatenated stored stream of any atom
/// and axis is as long as the covered frame range.
pub proof fn lemma_stored_len(cs: Seq<FrameCluster>, ax: Axis, a: int)
    requires
        forall|k: int| 0 <= k < cs.len() ==> (#[trigger] cs[k]).atoms.wf(cs[k].spec_frames()),
        forall|k: int|
            0 <= k < cs.len() ==> a < (#[trigger] cs[k]).atoms.x_coordinates@.len(),
        forall|k: int| 1 <= k < cs.len() ==> #[trigger] cs[k].frame_start == cs[k - 1].frame_end + 1,
        forall|k: int| 0 <= k < cs.len() ==> #[trigger] cs[k].frame_start <= cs[k].frame_end,
        0 <= a,
    ensures
        cs.len() > 0 ==> stored_axis(cs, ax, a).len() == cs[cs.len() - 1].frame_end + 1
            - cs[0].frame_start,
        cs.len() == 0 ==> stored_axis(cs, ax, a).len() == 0,
    decreases cs.len(),
{
    if cs.len() > 0 {
        let front = cs.drop_last();
        let last = cs.last();
        assert forall|k: int| 0 <= k < front.len() implies (#[trigger] front[k]).atoms.wf(
            front[k].spec_frames(),
        ) && a < front[k].atoms.x_coordinates@.len() && front[k].frame_start
            <= front[k].frame_end by {
            assert(front[k] == cs[k]);
        }
        assert forall|k: int| 1 <= k < front.len() implies #[trigger] front[k].frame_start
            == front[k - 1].frame_end + 1 by {
            assert(front[k] == cs[k] && front[k - 1] == cs[k - 1]);
        }
        lemma_stored_len(front, ax, a);
        assert(cluster_axis(last, ax)[a]@.len() == last.spec_frames());
    }
}

/// The reconstructed absolute positions of the whole trajectory: per axis,
/// per atom, the running sums of the stored stream, with cluster 0's tag
/// arrays carried over.
#[derive(Debug)]
pub struct Calculated {
    pub x: Vec<Vec<i32>>,
    pub y: Vec<Vec<i32>>,
    pub z: Vec<Vec<i32>>,
    pub elements: Vec<u8>,
    pub flags: Vec<u8>,
}

impl Calculated {
    pub fn x(&self) -> (r: &Vec<Vec<i32>>)
        ensures
            r == &self.x,
    {
        &self.x
    }

    pub fn y(&self) -> (r: &Vec<Vec<i32>>)
        ensures
            r == &self.y,
    {
        &self.y
    }

    pub fn z(&self) -> (r: &Vec<Vec<i32>>)
        ensures
            r == &self.z,
    {
        &self.z
    }

    pub fn elements(&self) -> (r: &Vec<u8>)
        ensures
            r == &self.elements,
    {
        &self.elements
    }

    pub fn flags(&self) -> (r: &Vec<u8>)
        ensures
            r == &self.flags,
    {
        &self.flags
    }
}

/// The chosen axis of a reconstruction result.
pub open spec fn calc_axis(calc: Calculated, ax: Axis) -> Seq<Vec<i32>> {
    match ax {
        Axis::X => calc.x@,
        Axis::Y => calc.y@,
        Axis::Z => calc.z@,
    }
}

/// Every row of the table holds exactly `fc` entries.
pub open spec fn rows_span(rows: Seq<Vec<i32>>, fc: int) -> bool {
    forall|a: int| 0 <= a < rows.len() ==> (#[trigger] rows[a])@.len() == fc
}

/// One axis of `calc` holds exactly the running sums of the stored stream.
pub open spec fn axis_matches(rows: Seq<Vec<i32>>, cs: Seq<FrameCluster>, ax: Axis) -> bool {
    &&& rows.len() == (if cs.len() == 0 {
        0int
    } else {
        cs[0].atoms.x_coordinates@.len() as int
    })
    &&& forall|a: int|
        0 <= a < rows.len() ==> (#[trigger] rows[a])@.len() == stored_axis(cs, ax, a).len()
    &&& forall|a: int, f: int|
        0 <= a < rows.len() && 0 <= f < rows[a]@.len() ==> (#[trigger] rows[a]@[f]) == sum_to(
            stored_axis(cs, ax, a),
            f + 1,
        )
}

/// The whole reconstruction contract: all three axes reconstructed, and the
/// tag arrays copied from cluster 0.
pub open spec fn calc_matches(calc: Calculated, cs: Seq<FrameCluster>) -> bool {
    &&& axis_matches(calc.x@, cs, Axis::X)
    &&& axis_matches(calc.y@, cs, Axis::Y)
    &&& axis_matches(calc.z@, cs, Axis::Z)
    &&& calc.elements@ == (if cs.len() == 0 {
        Seq::<u8>::empty()
    } else {
        cs[0].atoms.elements@
    })
    &&& calc.flags@ == (if cs.len() == 0 {
        Seq::<u8>::empty()
    } else {
        cs[0].atoms.flags@
    })
}

fn consistency_error() -> (r: DecodeError)
    ensures
        r.kind == ErrorKind::Consistency,
    {
    DecodeError {
        kind: ErrorKind::Consistency,
        line: 0,
        cluster: None,
        expected: Vec::new(),
        found: Vec::new(),
    }
}

fn range_error() -> (r: DecodeError)
    ensures
        r.kind == ErrorKind::NumericParse,
{
    DecodeError {
        kind: ErrorKind::NumericParse,
        line: 0,
        cluster: None,
        expected: Vec::new(),
        found: Vec::new(),
    }
}

/// Builds the concatenated stored stream of atom `a` on axis `ax`.
fn concat_axis(cs: &Vec<FrameCluster>, ax: Axis, a: usize) -> (r: Vec<i32>)
    requires
        forall|k: int|
            0 <= k < cs@.len() ==> a < (#[trigger] cluster_axis(cs@[k], ax)).len(),
    ensures
        r@ == stored_axis(cs@, ax, a as int),
{
    let mut cat: Vec<i32> = Vec::new();
    let mut k: usize = 0;
    while k < cs.len()
        invariant
            0 <= k <= cs@.len(),
            forall|t: int| 0 <= t < cs@.len() ==> a < (#[trigger] cluster_axis(cs@[t], ax)).len(),
            cat@ == stored_axis(cs@.take(k as int), ax, a as int),
        decreases cs@.len() - k,
    {
        assert(a < cluster_axis(cs@[k as int], ax).len());
        let row: &Vec<i32> = match ax {
            Axis::X => {
                assert(cluster_axis(cs@[k as int], ax) == cs@[k as int].atoms.x_coordinates@);
                &cs[k].atoms.x_coordinates[a]
            },
            Axis::Y => {
                assert(cluster_axis(cs@[k as int], ax) == cs@[k as int].atoms.y_coordinates@);
                &cs[k].atoms.y_coordinates[a]
            },
            Axis::Z => {
                assert(cluster_axis(cs@[k as int], ax) == cs@[k as int].atoms.z_coordinates@);
                &cs[k].atoms.z_coordinates[a]
            },
        };
        assert(row == cluster_axis(cs@[k as int], ax)[a as int]);
        let mut f: usize = 0;
        while f < row.len()
            invariant
                0 <= f <= row@.len(),
                cat@ == stored_axis(cs@.take(k as int), ax, a as int) + row@.subrange(0, f as int),
            decreases row@.len() - f,
        {
            cat.push(row[f]);
            f = f + 1;
            assert(cat@ =~= stored_axis(cs@.take(k as int), ax, a as int) + row@.subrange(
                0,
                f as int,
            ));
        }
        k = k + 1;
        proof {
            let taken = cs@.take(k as int);
            assert(taken.drop_last() =~= cs@.take(k - 1));
            assert(taken.last() == cs@[k - 1]);
            assert(stored_axis(taken, ax, a as int) == stored_axis(cs@.take(k - 1), ax, a as int)
                + cluster_axis(cs@[k - 1], ax)[a as int]@);
            assert(row@.subrange(0, row@.len() as int) =~= row@);
            assert(cat@ =~= stored_axis(taken, ax, a as int));
        }
    }
    assert(cs@.take(cs@.len() as int) =~= cs@);
    cat
}

/// Computes the running sums of one stored stream, or reports the first sum
/// that leaves the `i32` range.
fn running_sums(cat: &Vec<i32>) -> (r: Result<Vec<i32>, DecodeError>)
    ensures
        (r is Ok) == (forall|f: int|
            0 <= f < cat@.len() ==> i32::MIN <= #[trigger] sum_to(cat@, f + 1) <= i32::MAX),
        r is Ok ==> r->Ok_0@.len() == cat@.len(),
        r is Ok ==> forall|f: int|
            0 <= f < cat@.len() ==> (#[trigger] r->Ok_0@[f]) == sum_to(cat@, f + 1),
        r is Err ==> r->Err_0.kind == ErrorKind::NumericParse,
{
    let mut out: Vec<i32> = Vec::new();
    let mut acc: i64 = 0;
    let mut f: usize = 0;
    while f < cat.len()
        invariant
            0 <= f <= cat@.len(),
            acc == sum_to(cat@, f as int),
            i32::MIN <= acc <= i32::MAX,
            out@.len() == f,
            forall|t: int| 0 <= t < f ==> (#[trigger] out@[t]) == sum_to(cat@, t + 1),
            forall|t: int| 0 <= t < f ==> i32::MIN <= #[trigger] sum_to(cat@, t + 1) <= i32::MAX,
        decreases cat@.len() - f,
    {
        let v = cat[f];
        let next: i64 = acc + (v as i64);
        assert(next == sum_to(cat@, f + 1));
        if next < i32::MIN as i64 || next > i32::MAX as i64 {
            // the running sum left the quantized coordinate range
            assert(!(i32::MIN <= sum_to(cat@, f + 1) <= i32::MAX));
            return Err(range_error());
        }
        acc = next;
        out.push(acc as i32);
        f = f + 1;
    }
    Ok(out)
}

/// Reconstructs one axis for all atoms.
fn reconstruct_axis(cs: &Vec<FrameCluster>, ax: Axis, n: usize) -> (r: Result<
    Vec<Vec<i32>>,
    DecodeError,
>)
    requires
        forall|k: int| 0 <= k < cs@.len() ==> (#[trigger] cluster_axis(cs@[k], ax)).len() == n,
        n == (if cs@.len() == 0 {
            0int
        } else {
            cs@[0].atoms.x_coordinates@.len() as int
        }),
    ensures
        (r is Ok) == axis_ranges_ok(cs@, ax),
        r is Ok ==> axis_matches(r->Ok_0@, cs@, ax),
        r is Err ==> r->Err_0.kind == ErrorKind::NumericParse,
{
    let mut rows: Vec<Vec<i32>> = Vec::new();
    let mut a: usize = 0;
    while a < n
        invariant
            0 <= a <= n,
            forall|k: int| 0 <= k < cs@.len() ==> (#[trigger] cluster_axis(cs@[k], ax)).len() == n,
            n == (if cs@.len() == 0 {
                0int
            } else {
                cs@[0].atoms.x_coordinates@.len() as int
            }),
            rows@.len() == a,
            forall|q: int|
                0 <= q < a ==> (#[trigger] rows@[q])@.len() == stored_axis(cs@, ax, q).len(),
            forall|q: int, f: int|
                0 <= q < a && 0 <= f < rows@[q]@.len() ==> (#[trigger] rows@[q]@[f]) == sum_to(
                    stored_axis(cs@, ax, q),
                    f + 1,
                ),
            forall|q: int, f: int|
                0 <= q < a && 0 <= f < stored_axis(cs@, ax, q).len() ==> i32::MIN <= #[trigger] sum_to(
                    stored_axis(cs@, ax, q),
                    f + 1,
                ) <= i32::MAX,
        decreases n - a,
    {
        let cat = concat_axis(cs, ax, a);
        let sums = match running_sums(&cat) {
            Ok(v) => v,
            Err(e) => {
                assert(!axis_ranges_ok(cs@, ax)) by {
                    let bad = choose|f: int|
                        0 <= f < cat@.len() && !(i32::MIN <= #[trigger] sum_to(cat@, f + 1)
                            <= i32::MAX);
                    assert(0 <= a < n && 0 <= bad < stored_axis(cs@, ax, a as int).len());
                }
                return Err(e);
            },
        };
        rows.push(sums);
        a = a + 1;
    }
    assert(axis_ranges_ok(cs@, ax));
    Ok(rows)
}

/// What the Position Reconstructor returns for the clusters `cs` under the
/// declared `frame_count`: success exactly when the cross-cluster
/// invariants hold and every running sum stays quantizable, with the
/// reconstruction pinned on success; a consistency error when an invariant
/// is violated, and a numeric error when only a running sum leaves `i32`.
pub open spec fn reconstruct_result_matches(
    cs: Seq<FrameCluster>,
    frame_count: int,
    r: Result<Calculated, DecodeError>,
) -> bool {
    &&& (r is Ok) == (structural_ok(cs, frame_count) && ranges_ok(cs))
    &&& (r is Ok ==> calc_matches(r->Ok_0, cs))
    &&& (r is Err && !structural_ok(cs, frame_count) ==> r->Err_0.kind == ErrorKind::Consistency)
    &&& (r is Err && structural_ok(cs, frame_count) ==> r->Err_0.kind == ErrorKind::NumericParse)
}

/// The Position Reconstructor: checks the cross-cluster invariants (atom
/// counts, tag arrays, contiguous frame coverage) and converts the stored
/// delta streams into absolute quantized positions spanning the whole
/// trajectory. Processes clusters strictly in index order.
pub fn reconstruct(cs: &Vec<FrameCluster>, frame_count: usize) -> (r: Result<
    Calculated,
    DecodeError,
>)
    requires
        forall|k: int|
            0 <= k < cs@.len() ==> (#[trigger] cs@[k]).atoms.wf(cs@[k].spec_frames()),
    ensures
        reconstruct_result_matches(cs@, frame_count as int, r),
{
    if cs.len() == 0 {
        if frame_count != 0 {
            return Err(consistency_error());
        }
        let calc = Calculated {
            x: Vec::new(),
            y: Vec::new(),
            z: Vec::new(),
            elements: Vec::new(),
            flags: Vec::new(),
        };
        return Ok(calc);
    }
    let n: usize = cs[0].atoms.x_coordinates.len();

    // cross-cluster invariants
    let mut k: usize = 1;
    let ok = frame_count > 0 && cs[cs.len() - 1].frame_end == frame_count - 1;
    while k < cs.len()
        invariant
            1 <= k <= cs@.len(),
            cs@.len() > 0,
            n == cs@[0].atoms.x_coordinates@.len(),
            forall|t: int|
                0 <= t < cs@.len() ==> (#[trigger] cs@[t]).atoms.wf(cs@[t].spec_frames()),
            forall|t: int|
                1 <= t < k ==> #[trigger] cs@[t].atoms.x_coordinates@.len()
                    == cs@[0].atoms.x_coordinates@.len(),
            forall|t: int|
                1 <= t < k ==> #[trigger] cs@[t].atoms.elements@ == cs@[0].atoms.elements@
                    && cs@[t].atoms.flags@ == cs@[0].atoms.flags@,
            forall|t: int| 1 <= t < k ==> #[trigger] cs@[t].frame_start == cs@[t - 1].frame_end + 1,
        decreases cs@.len() - k,
    {
        if cs[k].atoms.x_coordinates.len() != n {
            // an atom count unlike cluster 0's
            return Err(consistency_error());
        }
        if !bytes_eq(&cs[k].atoms.elements, &cs[0].atoms.elements) {
            // a tag array unlike cluster 0's
            return Err(consistency_error());
        }
        if !bytes_eq(&cs[k].atoms.flags, &cs[0].atoms.flags) {
            return Err(consistency_error());
        }
        if !(cs[k].frame_start > 0 && cs[k].frame_start - 1 == cs[k - 1].frame_end) {
            // a gap or overlap between adjacent clusters
            return Err(consistency_error());
        }
        k = k + 1;
    }
    if !ok {
        // the clusters do not cover exactly the declared frame count
        return Err(consistency_error());
    }
    assert(structural_ok(cs@, frame_count as int));

    // the three axis reconstructions, in x, y, z order
    assert(forall|t: int|
        0 <= t < cs@.len() ==> (#[trigger] cluster_axis(cs@[t], Axis::X)).len() == n);
    assert(forall|t: int|
        0 <= t < cs@.len() ==> (#[trigger] cluster_axis(cs@[t], Axis::Y)).len() == n);
    assert(forall|t: int|
        0 <= t < cs@.len() ==> (#[trigger] cluster_axis(cs@[t], Axis::Z)).len() == n);
    let x = match reconstruct_axis(cs, Axis::X, n) {
        Ok(v) => v,
        Err(e) => {
            return Err(e);
        },
    };
    let y = match reconstruct_axis(cs, Axis::Y, n) {
        Ok(v) => v,
        Err(e) => {
            return Err(e);
        },
    };
    let z = match reconstruct_axis(cs, Axis::Z, n) {
        Ok(v) => v,
        Err(e) => {
            return Err(e);
        },
    };
    let elements = crate::lines::clone_line(&cs[0].atoms.elements);
    let flags = crate::lines::clone_line(&cs[0].atoms.flags);
    Ok(Calculated { x, y, z, elements, flags })
}

} // verus!
