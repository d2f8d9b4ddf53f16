use vstd::prelude::*;

use crate::error::{DecodeError, ErrAt, ErrorKind};
use crate::header::prefix_ok;
use crate::lines::{lines_view, spec_marker};
use crate::scan::{digits_end, digits_val, is_digit, spec_parse_usize, spec_scan};
use crate::text::{lit_bytes, spec_has_prefix};

verus! {

/// The view of a vector of per-atom coordinate rows.
pub open spec fn coords_view(v: Seq<Vec<i32>>) -> Seq<Seq<i32>> {
    v.map_values(|row: Vec<i32>| row@)
}

pub proof fn lemma_coords_view_push(v: Seq<Vec<i32>>, row: Vec<i32>)
    ensures
        coords_view(v.push(row)) =~= coords_view(v).push(row@),
{
    assert forall|t: int| 0 <= t < v.len() + 1 implies coords_view(v.push(row))[t] == coords_view(
        v,
    ).push(row@)[t] by {
        if t < v.len() {
            assert(v.push(row)[t] == v[t]);
        }
    }
}

/// One cluster's parsed atom data: per-axis, per-atom rows of stored
/// quantized integers, one entry per frame of the cluster, and the two
/// per-atom tag arrays.
#[derive(Debug)]
pub struct Atoms {
    pub x_coordinates: Vec<Vec<i32>>,
    pub y_coordinates: Vec<Vec<i32>>,
    pub z_coordinates: Vec<Vec<i32>>,
    pub elements: Vec<u8>,
    pub flags: Vec<u8>,
}

impl Atoms {
    pub fn x_coordinates(&self) -> (r: &Vec<Vec<i32>>)
        ensures
            r == &self.x_coordinates,
    {
        &self.x_coordinates
    }

    pub fn y_coordinates(&self) -> (r: &Vec<Vec<i32>>)
        ensures
            r == &self.y_coordinates,
    {
        &self.y_coordinates
    }

    pub fn z_coordinates(&self) -> (r: &Vec<Vec<i32>>)
        ensures
            r == &self.z_coordinates,
    {
        &self.z_coordinates
    }

    pub fn elements(&self) -> (r: &Vec<u8>)
        ensures
            r == &self.elements,
    {
        &self.elements
    }

    pub fn flags(&self) -> (r: &Vec<u8>)
        ensures
            r == &self.flags,
    {
        &self.flags
    }

    /// Every axis and tag array agrees on one atom count, and every atom row
    /// holds one stored value per frame of the cluster.
    pub open spec fn wf(self, frames: int) -> bool {
        &&& self.y_coordinates@.len() == self.x_coordinates@.len()
        &&& self.z_coordinates@.len() == self.x_coordinates@.len()
        &&& self.elements@.len() == self.x_coordinates@.len()
        &&& self.flags@.len() == self.x_coordinates@.len()
        &&& forall|a: int|
            0 <= a < self.x_coordinates@.len() ==> #[trigger] self.x_coordinates@[a]@.len()
                == frames
        &&& forall|a: int|
            0 <= a < self.y_coordinates@.len() ==> #[trigger] self.y_coordinates@[a]@.len()
                == frames
        &&& forall|a: int|
            0 <= a < self.z_coordinates@.len() ==> #[trigger] self.z_coordinates@[a]@.len()
                == frames
    }
}

/// One decoded frame cluster: its inclusive frame range, whether a per-frame
/// metadata section was present, and its atom data.
#[derive(Debug)]
pub struct FrameCluster {
    pub frame_start: usize,
    pub frame_end: usize,
    pub has_metadata: bool,
    pub atoms: Atoms,
}

impl FrameCluster {
    pub fn frame_start(&self) -> (r: usize)
        ensures
            r == self.frame_start,
    {
        self.frame_start
    }

    pub fn frame_end(&self) -> (r: usize)
        ensures
            r == self.frame_end,
    {
        self.frame_end
    }

    /// Whether this cluster carried a per-frame metadata section. Its
    /// values are not retained; only their presence is recorded.
    pub fn metadata(&self) -> (r: bool)
        ensures
            r == self.has_metadata,
    {
        self.has_metadata
    }

    pub fn atoms(&self) -> (r: &Atoms)
        ensures
            r == &self.atoms,
    {
        &self.atoms
    }

    /// The number of frames this cluster stores.
    pub open spec fn spec_frames(self) -> int {
        self.frame_end - self.frame_start + 1
    }

    /// The decoder's per-cluster invariant at physical position `k`: the
    /// declared range starts at `k * size`, is nonempty, fits the cluster
    /// size, and the atom data is consistent with it.
    pub open spec fn wf(self, k: int, size: int) -> bool {
        &&& self.frame_start == k * size
        &&& self.frame_start <= self.frame_end
        &&& self.spec_frames() <= size
        &&& self.atoms.wf(self.spec_frames())
    }
}

/// The spec-level image of one decoded cluster.
pub struct ClusterModel {
    pub frame_start: int,
    pub frame_end: int,
    pub has_metadata: bool,
    pub x: Seq<Seq<i32>>,
    pub y: Seq<Seq<i32>>,
    pub z: Seq<Seq<i32>>,
    pub elements: Seq<u8>,
    pub flags: Seq<u8>,
}

/// The decoded cluster `c` carries exactly the data of the model `m`.
pub open spec fn cluster_matches(c: FrameCluster, m: ClusterModel) -> bool {
    &&& c.frame_start == m.frame_start
    &&& c.frame_end == m.frame_end
    &&& c.has_metadata == m.has_metadata
    &&& coords_view(c.atoms.x_coordinates@) == m.x
    &&& coords_view(c.atoms.y_coordinates@) == m.y
    &&& coords_view(c.atoms.z_coordinates@) == m.z
    &&& c.atoms.elements@ == m.elements
    &&& c.atoms.flags@ == m.flags
}

/// First line at or after `from` that satisfies `p`, or the end.
pub open spec fn find_line(seg: Seq<Seq<u8>>, from: int, p: spec_fn(Seq<u8>) -> bool) -> int
    decreases seg.len() - from,
{
    if from < 0 || from >= seg.len() {
        seg.len() as int
    } else if p(seg[from]) {
        from
    } else {
        find_line(seg, from + 1, p)
    }
}

pub proof fn lemma_find_line(seg: Seq<Seq<u8>>, from: int, p: spec_fn(Seq<u8>) -> bool)
    requires
        0 <= from <= seg.len(),
    ensures
        from <= find_line(seg, from, p) <= seg.len(),
        forall|i: int| from <= i < find_line(seg, from, p) ==> !p(seg[i]),
        find_line(seg, from, p) < seg.len() ==> p(seg[find_line(seg, from, p)]),
    decreases seg.len() - from,
{
    if from < seg.len() && !p(seg[from]) {
        lemma_find_line(seg, from + 1, p);
    }
}

/// A line that opens the atoms section.
pub open spec fn is_atoms_line(l: Seq<u8>) -> bool {
    spec_has_prefix(l, lit_bytes("  atoms:"))
}

/// A line that carries one atom's values inside an axis block.
pub open spec fn is_atom_row(l: Seq<u8>) -> bool {
    spec_has_prefix(l, lit_bytes("      - "))
}

/// A nonblank line.
pub open spec fn is_nonblank(l: Seq<u8>) -> bool {
    l.len() > 0
}

/// The predicate that closes an axis block: a line that is not an atom row.
pub open spec fn non_row_pred() -> spec_fn(Seq<u8>) -> bool {
    |l: Seq<u8>| !is_atom_row(l)
}

/// The predicate that finds the atoms section.
pub open spec fn atoms_pred() -> spec_fn(Seq<u8>) -> bool {
    |l: Seq<u8>| is_atoms_line(l)
}

/// The predicate that finds stray content after the tag blocks.
pub open spec fn nonblank_pred() -> spec_fn(Seq<u8>) -> bool {
    |l: Seq<u8>| is_nonblank(l)
}

/// A table of `n` empty per-atom slots.
pub open spec fn empty_slots(n: nat) -> Seq<Option<Seq<i32>>> {
    Seq::new(n, |a: int| None)
}

/// The dense table read out of a fully placed slot table.
pub open spec fn unwrap_slots(slots: Seq<Option<Seq<i32>>>) -> Seq<Seq<i32>> {
    Seq::new(slots.len(), |a: int| slots[a]->Some_0)
}

/// The meaning of one atom row: its declared atom index (the digits between
/// the row prefix and a colon) and the scanned run of stored values after
/// the colon. `None` marks a malformed row.
pub open spec fn spec_parse_atom_row(l: Seq<u8>) -> Option<(int, Seq<i32>)> {
    let ds = lit_bytes("      - ").len() as int;
    if !is_atom_row(l) {
        None
    } else {
        let de = digits_end(l, ds);
        if de <= ds || de >= l.len() || l[de] != 58 {
            None  // no index digits, or no colon after them
        } else {
            let idx = digits_val(l, ds, de);
            if idx > usize::MAX {
                None
            } else {
                match spec_scan(l, de + 1) {
                    Option::None => None,
                    Option::Some(vals) => Some((idx, vals)),
                }
            }
        }
    }
}

/// Parses and places the atom rows of the lines `[i, r)`: each row's values
/// land in the slot its declared index names. A malformed row is a numeric
/// error at its line; an index out of range or named twice, or a row whose
/// value count is not the cluster's frame count, is a consistency error at
/// its line.
pub open spec fn spec_axis_rows(
    seg: Seq<Seq<u8>>,
    i: int,
    r: int,
    acc: Seq<Option<Seq<i32>>>,
    frames: int,
) -> Result<Seq<Option<Seq<i32>>>, ErrAt>
    decreases r - i,
{
    if i >= r {
        Ok(acc)
    } else {
        match spec_parse_atom_row(seg[i]) {
            Option::None => Err(ErrAt { kind: ErrorKind::NumericParse, line: i, expected: Seq::empty() }),
            Option::Some((idx, vals)) => {
                if !(0 <= idx < acc.len()) || acc[idx] is Some {
                    Err(ErrAt { kind: ErrorKind::Consistency, line: i, expected: Seq::empty() })
                } else if vals.len() != frames {
                    Err(ErrAt { kind: ErrorKind::Consistency, line: i, expected: Seq::empty() })
                } else {
                    spec_axis_rows(seg, i + 1, r, acc.update(idx, Some(vals)), frames)
                }
            },
        }
    }
}

/// One axis block at line `p`: its label line, then every following atom
/// row, placed by declared index into a dense table. Returns the table and
/// the position after the block.
pub open spec fn spec_axis_block(seg: Seq<Seq<u8>>, p: int, label: Seq<u8>, frames: int) -> Result<
    (Seq<Seq<i32>>, int),
    ErrAt,
> {
    if !prefix_ok(seg, p, label) {
        Err(ErrAt { kind: ErrorKind::StructuralFormat, line: p, expected: label })
    } else {
        let b = p + 1;
        let r = find_line(seg, b, non_row_pred());
        let n = r - b;
        match spec_axis_rows(seg, b, r, empty_slots((r - b) as nat), frames) {
            Result::Err(e) => Err(e),
            Result::Ok(slots) => Ok((unwrap_slots(slots), r)),
        }
    }
}

/// The byte image of a scanned run of tag values.
pub open spec fn bytes_of(vals: Seq<i32>) -> Seq<u8> {
    Seq::new(vals.len(), |t: int| vals[t] as u8)
}

/// All tag values fit a byte.
pub open spec fn tags_in_range(vals: Seq<i32>) -> bool {
    forall|t: int| 0 <= t < vals.len() ==> 0 <= #[trigger] vals[t] <= 255
}

/// The two tag blocks at lines `pz` and `pz + 1`: their labels, then one
/// scanned run of values on each label's own line, every value a byte, one
/// per atom. The two runs are scanned in lock-step; the checks stage by
/// stage, elements before flags within each stage.
pub open spec fn spec_tag_stage(seg: Seq<Seq<u8>>, pz: int, n: int) -> Result<
    (Seq<u8>, Seq<u8>),
    ErrAt,
> {
    let el = lit_bytes("    elements:");
    let fl = lit_bytes("    flags:");
    if !prefix_ok(seg, pz, el) {
        Err(ErrAt { kind: ErrorKind::StructuralFormat, line: pz, expected: el })
    } else if !prefix_ok(seg, pz + 1, fl) {
        Err(ErrAt { kind: ErrorKind::StructuralFormat, line: pz + 1, expected: fl })
    } else if spec_scan(seg[pz], el.len() as int) is None {
        Err(ErrAt { kind: ErrorKind::NumericParse, line: pz, expected: Seq::empty() })
    } else if spec_scan(seg[pz + 1], fl.len() as int) is None {
        Err(ErrAt { kind: ErrorKind::NumericParse, line: pz + 1, expected: Seq::empty() })
    } else {
        let ev = spec_scan(seg[pz], el.len() as int)->Some_0;
        let fv = spec_scan(seg[pz + 1], fl.len() as int)->Some_0;
        if !tags_in_range(ev) {
            Err(ErrAt { kind: ErrorKind::NumericParse, line: pz, expected: Seq::empty() })
        } else if !tags_in_range(fv) {
            Err(ErrAt { kind: ErrorKind::NumericParse, line: pz + 1, expected: Seq::empty() })
        } else if ev.len() != n {
            Err(ErrAt { kind: ErrorKind::Consistency, line: pz, expected: Seq::empty() })
        } else if fv.len() != n {
            Err(ErrAt { kind: ErrorKind::Consistency, line: pz + 1, expected: Seq::empty() })
        } else {
            Ok((bytes_of(ev), bytes_of(fv)))
        }
    }
}

/// The Cluster Decoder's grammar over one cluster segment at physical
/// position `k` among all clusters, under the header's cluster size: the
/// marker line; the declared frame range, whose start must equal
/// `k * size` and which must fit the cluster size; the per-frame metadata
/// marker (contents validated for presence only); the atoms section with its
/// three axis blocks in x, y, z order, all of one atom count; the two tag
/// blocks; and nothing but blank lines after.
pub open spec fn spec_decode_cluster(seg: Seq<Seq<u8>>, k: int, size: int) -> Result<
    ClusterModel,
    ErrAt,
> {
    if !prefix_ok(seg, 0, spec_marker()) {
        Err(ErrAt { kind: ErrorKind::StructuralFormat, line: 0, expected: spec_marker() })
    } else if !prefix_ok(seg, 1, lit_bytes("  frame start: ")) {
        Err(ErrAt { kind: ErrorKind::StructuralFormat, line: 1, expected: lit_bytes("  frame start: ") })
    } else if spec_parse_usize(seg[1], lit_bytes("  frame start: ").len() as int, false) is None {
        Err(ErrAt { kind: ErrorKind::NumericParse, line: 1, expected: lit_bytes("  frame start: ") })
    } else if spec_parse_usize(seg[1], lit_bytes("  frame start: ").len() as int, false)->Some_0
        != k * size {
        // the declared start disagrees with the cluster's physical position
        Err(ErrAt { kind: ErrorKind::StructuralFormat, line: 1, expected: lit_bytes("  frame start: ") })
    } else if !prefix_ok(seg, 2, lit_bytes("  frame end: ")) {
        Err(ErrAt { kind: ErrorKind::StructuralFormat, line: 2, expected: lit_bytes("  frame end: ") })
    } else if spec_parse_usize(seg[2], lit_bytes("  frame end: ").len() as int, false) is None {
        Err(ErrAt { kind: ErrorKind::NumericParse, line: 2, expected: lit_bytes("  frame end: ") })
    } else {
        let u = spec_parse_usize(seg[1], lit_bytes("  frame start: ").len() as int, false)->Some_0
            as int;
        let e = spec_parse_usize(seg[2], lit_bytes("  frame end: ").len() as int, false)->Some_0
            as int;
        if e < u || e - u + 1 > size {
            // the declared range is empty or does not fit the cluster size
            Err(ErrAt { kind: ErrorKind::Consistency, line: 2, expected: lit_bytes("  frame end: ") })
        } else if !prefix_ok(seg, 3, lit_bytes("  metadata:")) {
            Err(ErrAt { kind: ErrorKind::StructuralFormat, line: 3, expected: lit_bytes("  metadata:") })
        } else {
            let a = find_line(seg, 4, atoms_pred());
            if a >= seg.len() {
                Err(ErrAt { kind: ErrorKind::StructuralFormat, line: seg.len() as int, expected: lit_bytes("  atoms:") })
            } else {
                let frames = e - u + 1;
                match spec_axis_block(seg, a + 1, lit_bytes("    x coordinates:"), frames) {
                    Result::Err(err) => Err(err),
                    Result::Ok((x, px)) => match spec_axis_block(
                        seg,
                        px,
                        lit_bytes("    y coordinates:"),
                        frames,
                    ) {
                        Result::Err(err) => Err(err),
                        Result::Ok((y, py)) => {
                            if y.len() != x.len() {
                                Err(ErrAt { kind: ErrorKind::Consistency, line: px, expected: lit_bytes("    y coordinates:") })
                            } else {
                                match spec_axis_block(
                                    seg,
                                    py,
                                    lit_bytes("    z coordinates:"),
                                    frames,
                                ) {
                                    Result::Err(err) => Err(err),
                                    Result::Ok((z, pz)) => {
                                        if z.len() != x.len() {
                                            Err(ErrAt { kind: ErrorKind::Consistency, line: py, expected: lit_bytes("    z coordinates:") })
                                        } else {
                                            match spec_tag_stage(
                                                seg,
                                                pz,
                                                x.len() as int,
                                            ) {
                                                Result::Err(err) => Err(err),
                                                Result::Ok((elements, flags)) => {
                                                    let nb = find_line(
                                                        seg,
                                                        pz + 2,
                                                        nonblank_pred(),
                                                    );
                                                    if nb < seg.len() {
                                                        // stray content after the tag blocks
                                                        Err(
                                                            ErrAt {
                                                                kind: ErrorKind::StructuralFormat,
                                                                line: nb,
                                                                expected: Seq::empty(),
                                                            },
                                                        )
                                                    } else {
                                                        Ok(
                                                            ClusterModel {
                                                                frame_start: u,
                                                                frame_end: e,
                                                                has_metadata: a > 4,
                                                                x,
                                                                y,
                                                                z,
                                                                elements,
                                                                flags,
                                                            },
                                                        )
                                                    }
                                                },
                                            }
                                        }
                                    },
                                }
                            }
                        },
                    },
                }
            }
        }
    }
}

/// The view of a vector of optional coordinate rows.
pub open spec fn slots_view(v: Seq<Option<Vec<i32>>>) -> Seq<Option<Seq<i32>>> {
    v.map_values(
        |o: Option<Vec<i32>>|
            match o {
                Option::None => Option::<Seq<i32>>::None,
                Option::Some(w) => Option::Some(w@),
            },
    )
}

/// How many slots of the table are filled.
pub open spec fn count_some(acc: Seq<Option<Seq<i32>>>) -> int
    decreases acc.len(),
{
    if acc.len() == 0 {
        0
    } else {
        count_some(acc.drop_last()) + if acc.last() is Some {
            1int
        } else {
            0int
        }
    }
}

pub proof fn lemma_count_some_bounds(acc: Seq<Option<Seq<i32>>>)
    ensures
        0 <= count_some(acc) <= acc.len(),
    decreases acc.len(),
{
    if acc.len() > 0 {
        lemma_count_some_bounds(acc.drop_last());
    }
}

pub proof fn lemma_count_some_none(acc: Seq<Option<Seq<i32>>>)
    requires
        forall|t: int| 0 <= t < acc.len() ==> acc[t] is None,
    ensures
        count_some(acc) == 0,
    decreases acc.len(),
{
    if acc.len() > 0 {
        assert forall|t: int| 0 <= t < acc.len() - 1 implies acc.drop_last()[t] is None by {
            assert(acc[t] is None);
        }
        lemma_count_some_none(acc.drop_last());
    }
}

pub proof fn lemma_count_some_update(acc: Seq<Option<Seq<i32>>>, i: int, vals: Seq<i32>)
    requires
        0 <= i < acc.len(),
        acc[i] is None,
    ensures
        count_some(acc.update(i, Some(vals))) == count_some(acc) + 1,
    decreases acc.len(),
{
    let upd = acc.update(i, Some(vals));
    if i == acc.len() - 1 {
        assert(upd.drop_last() =~= acc.drop_last());
    } else {
        assert(upd.drop_last() =~= acc.drop_last().update(i, Some(vals)));
        lemma_count_some_update(acc.drop_last(), i, vals);
        assert(upd.last() == acc.last());
    }
}

pub proof fn lemma_count_some_full(acc: Seq<Option<Seq<i32>>>)
    requires
        count_some(acc) == acc.len(),
    ensures
        forall|t: int| 0 <= t < acc.len() ==> acc[t] is Some,
    decreases acc.len(),
{
    if acc.len() > 0 {
        lemma_count_some_bounds(acc.drop_last());
        lemma_count_some_full(acc.drop_last());
        assert forall|t: int| 0 <= t < acc.len() implies acc[t] is Some by {
            if t < acc.len() - 1 {
                assert(acc.drop_last()[t] is Some);
            }
        }
    }
}

fn cluster_err(kind: ErrorKind, line: usize, k: usize, expected: Vec<u8>, found: Vec<u8>) -> (r:
    DecodeError)
    ensures
        r.kind == kind,
        r.line == line,
        r.expected == expected,
        r.cluster == Some(k),
{
    DecodeError { kind, line, cluster: Some(k), expected, found }
}

/// Parses one atom row, exactly as `spec_parse_atom_row` reads it.
fn parse_atom_row(l: &Vec<u8>) -> (r: Result<(usize, Vec<i32>), DecodeError>)
    ensures
        (r is Ok) == (spec_parse_atom_row(l@) is Some),
        r is Ok ==> r->Ok_0.0 == spec_parse_atom_row(l@)->Some_0.0,
        r is Ok ==> r->Ok_0.1@ == spec_parse_atom_row(l@)->Some_0.1,
        r is Err ==> r->Err_0.kind == ErrorKind::NumericParse,
{
    proof {
        reveal_strlit("      - ");
    }
    let row_prefix = crate::text::ascii_bytes("      - ");
    let nerr = DecodeError {
        kind: ErrorKind::NumericParse,
        line: 0,
        cluster: None,
        expected: Vec::new(),
        found: Vec::new(),
    };
    if !crate::text::has_prefix(l, &row_prefix) {
        return Err(nerr);
    }
    let ds: usize = row_prefix.len();
    proof {
        crate::scan::lemma_digits_end(l@, ds as int);
    }
    let ghost de = digits_end(l@, ds as int);
    let mut j: usize = ds;
    let mut acc: u128 = 0;
    while j < l.len() && l[j] >= 48 && l[j] <= 57
        invariant
            ds <= j <= de <= l@.len(),
            de == digits_end(l@, ds as int),
            forall|t: int| ds <= t < de ==> is_digit(l@[t]),
            de < l@.len() ==> !is_digit(l@[de]),
            acc == digits_val(l@, ds as int, j as int),
            acc <= usize::MAX,
            nerr.kind == ErrorKind::NumericParse,
            is_atom_row(l@),
            ds == lit_bytes("      - ").len(),
        decreases l@.len() - j,
    {
        assert(j < de) by {
            if j == de {
                assert(!is_digit(l@[de]));
            }
        }
        acc = acc * 10 + ((l[j] - 48) as u128);
        j = j + 1;
        if acc > usize::MAX as u128 {
            proof {
                crate::scan::lemma_digits_val_bounds(l@, ds as int, de);
                assert(digits_val(l@, ds as int, de) >= digits_val(l@, ds as int, j as int));
                assert(spec_parse_atom_row(l@) is None);
            }
            return Err(nerr);
        }
    }
    assert(j == de);
    if j == ds {
        // no atom index digits after the row prefix
        return Err(nerr);
    }
    if j >= l.len() || l[j] != 58 {
        // the atom index must be closed by a colon
        return Err(nerr);
    }
    let idx = acc as usize;
    match crate::scan::scan_ints_from(l, j + 1) {
        Ok(vals) => Ok((idx, vals)),
        Err(e) => Err(nerr),
    }
}

/// Decodes one axis block at line `p`, exactly as `spec_axis_block` reads
/// it: the atom rows that follow the label line are placed by their
/// declared index into a dense per-atom table.
fn decode_axis_block(seg: &Vec<Vec<u8>>, p: usize, label: &Vec<u8>, frames: usize, k: usize) -> (r:
    Result<(Vec<Vec<i32>>, usize), DecodeError>)
    ensures
        (r is Ok) == (spec_axis_block(lines_view(seg@), p as int, label@, frames as int) is Ok),
        r is Ok ==> coords_view(r->Ok_0.0@) == spec_axis_block(
            lines_view(seg@),
            p as int,
            label@,
            frames as int,
        )->Ok_0.0,
        r is Ok ==> r->Ok_0.1 == spec_axis_block(
            lines_view(seg@),
            p as int,
            label@,
            frames as int,
        )->Ok_0.1,
        r is Ok ==> p < seg@.len() && r->Ok_0.1 <= seg@.len(),
        r is Ok ==> forall|q: int|
            0 <= q < r->Ok_0.0@.len() ==> #[trigger] r->Ok_0.0@[q]@.len() == frames,
        r is Err ==> r->Err_0.is_at(
            spec_axis_block(lines_view(seg@), p as int, label@, frames as int)->Err_0,
        ) && r->Err_0.cluster == Some(k),
{
    let ghost sv = lines_view(seg@);
    proof {
        reveal_strlit("      - ");
    }
    let row_prefix = crate::text::ascii_bytes("      - ");
    if !(p < seg.len() && crate::text::has_prefix(&seg[p], label)) {
        proof {
            if p < seg@.len() {
                assert(sv[p as int] == seg@[p as int]@);
            }
        }
        let found = if p < seg.len() {
            crate::lines::clone_line(&seg[p])
        } else {
            Vec::new()
        };
        return Err(
            cluster_err(ErrorKind::StructuralFormat, p, k, crate::lines::clone_line(label), found),
        );
    }
    assert(sv[p as int] == seg@[p as int]@);
    assert(prefix_ok(sv, p as int, label@));
    let b: usize = p + 1;
    proof {
        lemma_find_line(sv, b as int, non_row_pred());
    }
    let ghost rr = find_line(sv, b as int, non_row_pred());
    let mut j: usize = b;
    while j < seg.len() && crate::text::has_prefix(&seg[j], &row_prefix)
        invariant
            b <= j <= rr <= seg@.len(),
            sv == lines_view(seg@),
            row_prefix@ == lit_bytes("      - "),
            rr == find_line(sv, b as int, non_row_pred()),
            forall|t: int| b <= t < rr ==> is_atom_row(sv[t]),
            rr < sv.len() ==> !is_atom_row(sv[rr]),
        decreases seg@.len() - j,
    {
        assert(sv[j as int] == seg@[j as int]@);
        assert(j < rr) by {
            if j == rr {
                assert(!is_atom_row(sv[rr]));
            }
        }
        j = j + 1;
    }
    assert(j == rr) by {
        if j < seg@.len() {
            assert(sv[j as int] == seg@[j as int]@);
        }
    }
    let n: usize = j - b;

    // an empty table, one slot per atom row
    let mut slots: Vec<Option<Vec<i32>>> = Vec::new();
    let mut t: usize = 0;
    while t < n
        invariant
            t <= n,
            slots@.len() == t,
            forall|q: int| 0 <= q < t ==> slots@[q] is None,
        decreases n - t,
    {
        slots.push(None);
        t = t + 1;
    }
    let ghost init: Seq<Option<Seq<i32>>> = empty_slots(n as nat);
    assert(slots_view(slots@) =~= init);
    proof {
        lemma_count_some_none(init);
    }

    // place each row by its declared index
    let mut i: usize = b;
    while i < j
        invariant
            b <= i <= j == rr <= seg@.len(),
            b == p + 1,
            sv == lines_view(seg@),
            prefix_ok(sv, p as int, label@),
            n == rr - b,
            slots@.len() == n,
            rr == find_line(sv, b as int, non_row_pred()),
            forall|t2: int| b <= t2 < rr ==> is_atom_row(sv[t2]),
            spec_axis_rows(sv, b as int, rr, init, frames as int) == spec_axis_rows(
                sv,
                i as int,
                rr,
                slots_view(slots@),
                frames as int,
            ),
            count_some(slots_view(slots@)) == i - b,
            forall|q: int|
                0 <= q < n && slots_view(slots@)[q] is Some ==> (#[trigger] slots_view(
                    slots@,
                )[q])->Some_0.len() == frames,
            init == empty_slots(n as nat),
        decreases j - i,
    {
        assert(sv[i as int] == seg@[i as int]@);
        let ghost cur = slots_view(slots@);
        let row = match parse_atom_row(&seg[i]) {
            Ok(pair) => pair,
            Err(e) => {
                proof {
                    assert(spec_axis_rows(sv, i as int, rr, cur, frames as int) == Err::<
                        Seq<Option<Seq<i32>>>,
                        ErrAt,
                    >(ErrAt { kind: ErrorKind::NumericParse, line: i as int, expected: Seq::empty() }));
                }
                return Err(
                    cluster_err(
                        ErrorKind::NumericParse,
                        i,
                        k,
                        Vec::new(),
                        crate::lines::clone_line(&seg[i]),
                    ),
                );
            },
        };
        let (idx, vals) = row;
        let in_range = idx < slots.len();
        let fresh = in_range && slots[idx].is_none();
        proof {
            if in_range {
                assert(cur[idx as int] is None <==> slots@[idx as int] is None);
            }
        }
        if !in_range || !fresh {
            // an atom index out of range or declared twice
            proof {
                assert(spec_axis_rows(sv, i as int, rr, cur, frames as int) == Err::<
                    Seq<Option<Seq<i32>>>,
                    ErrAt,
                >(ErrAt { kind: ErrorKind::Consistency, line: i as int, expected: Seq::empty() }));
            }
            return Err(
                cluster_err(
                    ErrorKind::Consistency,
                    i,
                    k,
                    Vec::new(),
                    crate::lines::clone_line(&seg[i]),
                ),
            );
        }
        if vals.len() != frames {
            // a row with the wrong number of stored frames
            proof {
                assert(spec_axis_rows(sv, i as int, rr, cur, frames as int) == Err::<
                    Seq<Option<Seq<i32>>>,
                    ErrAt,
                >(ErrAt { kind: ErrorKind::Consistency, line: i as int, expected: Seq::empty() }));
            }
            return Err(
                cluster_err(
                    ErrorKind::Consistency,
                    i,
                    k,
                    Vec::new(),
                    crate::lines::clone_line(&seg[i]),
                ),
            );
        }
        let ghost vals_v = vals@;
        slots[idx] = Some(vals);
        proof {
            assert(slots_view(slots@) =~= cur.update(idx as int, Some(vals_v)));
            lemma_count_some_update(cur, idx as int, vals_v);
            assert(spec_axis_rows(sv, i as int, rr, cur, frames as int) == spec_axis_rows(
                sv,
                i + 1,
                rr,
                slots_view(slots@),
                frames as int,
            ));
        }
        i = i + 1;
    }
    assert(spec_axis_rows(sv, b as int, rr, init, frames as int) == Ok::<_, ErrAt>(
        slots_view(slots@),
    ));
    proof {
        lemma_count_some_full(slots_view(slots@));
    }

    // every slot is filled; unwrap the table in order
    let ghost filled = slots_view(slots@);
    let mut out: Vec<Vec<i32>> = Vec::new();
    let mut a: usize = 0;
    while a < n
        invariant
            a <= n,
            slots@.len() == n,
            filled == slots_view(slots@),
            forall|q: int| 0 <= q < n ==> filled[q] is Some,
            forall|q: int|
                0 <= q < n ==> (#[trigger] filled[q])->Some_0.len() == frames,
            out@.len() == a,
            forall|q: int| 0 <= q < a ==> #[trigger] coords_view(out@)[q] == filled[q]->Some_0,
        decreases n - a,
    {
        let ghost prev_out = out@;
        let row_opt = &slots[a];
        match row_opt {
            Some(row) => {
                assert(filled[a as int] == Some(row@));
                let copied = crate::lines::copy_range_i32(row, 0, row.len());
                assert(copied@ =~= row@);
                out.push(copied);
                proof {
                    lemma_coords_view_push(prev_out, out@.last());
                    assert forall|q: int| 0 <= q < a + 1 implies #[trigger] coords_view(out@)[q]
                        == filled[q]->Some_0 by {
                        if q < a {
                            assert(coords_view(prev_out)[q] == filled[q]->Some_0);
                        }
                    }
                }
            },
            None => {
                proof {
                    assert(filled[a as int] is Some);
                    assert(false);
                }
            },
        }
        a = a + 1;
    }
    assert(coords_view(out@) =~= unwrap_slots(filled));
    assert(coords_view(out@) =~= spec_axis_block(sv, p as int, label@, frames as int)->Ok_0.0);
    assert forall|q: int| 0 <= q < out@.len() implies #[trigger] out@[q]@.len() == frames by {
        assert(coords_view(out@)[q] == out@[q]@);
        assert(filled[q]->Some_0.len() == frames);
    }
    Ok((out, j))
}

/// Converts one scanned tag run into bytes, or reports a value outside the
/// byte range.
fn tag_bytes(vals: &Vec<i32>) -> (r: Option<Vec<u8>>)
    ensures
        (r is Some) == tags_in_range(vals@),
        r is Some ==> r->0@ == bytes_of(vals@),
{
    let mut bytes: Vec<u8> = Vec::new();
    let mut t: usize = 0;
    while t < vals.len()
        invariant
            0 <= t <= vals@.len(),
            bytes@.len() == t,
            forall|q: int| 0 <= q < t ==> 0 <= #[trigger] vals@[q] <= 255,
            forall|q: int| 0 <= q < t ==> #[trigger] bytes@[q] == vals@[q] as u8,
        decreases vals@.len() - t,
    {
        let v = vals[t];
        if v < 0 || v > 255 {
            assert(!(0 <= vals@[t as int] <= 255));
            return None;
        }
        bytes.push(v as u8);
        t = t + 1;
    }
    assert(bytes@ =~= bytes_of(vals@));
    Some(bytes)
}

/// Decodes the two tag blocks at `pz` and `pz + 1`, exactly as
/// `spec_tag_stage` reads them: the two value runs are scanned as two lanes
/// of the Integer Scanner in lock-step.
fn decode_tag_stage(seg: &Vec<Vec<u8>>, pz: usize, n: usize, k: usize) -> (r: Result<
    (Vec<u8>, Vec<u8>),
    DecodeError,
>)
    ensures
        (r is Ok) == (spec_tag_stage(lines_view(seg@), pz as int, n as int) is Ok),
        r is Ok ==> r->Ok_0.0@ == spec_tag_stage(lines_view(seg@), pz as int, n as int)->Ok_0.0,
        r is Ok ==> r->Ok_0.1@ == spec_tag_stage(lines_view(seg@), pz as int, n as int)->Ok_0.1,
        r is Ok ==> pz + 1 < seg@.len(),
        r is Err ==> r->Err_0.is_at(
            spec_tag_stage(lines_view(seg@), pz as int, n as int)->Err_0,
        ) && r->Err_0.cluster == Some(k),
{
    let ghost sv = lines_view(seg@);
    proof {
        reveal_strlit("    elements:");
        reveal_strlit("    flags:");
    }
    let el = crate::text::ascii_bytes("    elements:");
    let fl = crate::text::ascii_bytes("    flags:");
    if !(pz < seg.len() && crate::text::has_prefix(&seg[pz], &el)) {
        proof {
            if pz < seg@.len() {
                assert(sv[pz as int] == seg@[pz as int]@);
            }
        }
        let found = if pz < seg.len() {
            crate::lines::clone_line(&seg[pz])
        } else {
            Vec::new()
        };
        return Err(cluster_err(ErrorKind::StructuralFormat, pz, k, el, found));
    }
    assert(sv[pz as int] == seg@[pz as int]@);
    if !(pz + 1 < seg.len() && crate::text::has_prefix(&seg[pz + 1], &fl)) {
        proof {
            if pz + 1 < seg@.len() {
                assert(sv[pz + 1] == seg@[pz + 1]@);
            }
        }
        let found = if pz + 1 < seg.len() {
            crate::lines::clone_line(&seg[pz + 1])
        } else {
            Vec::new()
        };
        return Err(cluster_err(ErrorKind::StructuralFormat, pz + 1, k, fl, found));
    }
    assert(sv[pz + 1] == seg@[pz + 1]@);

    // the two value runs, as two lanes of the scanner
    let mut spans: Vec<Vec<u8>> = Vec::new();
    spans.push(crate::lines::clone_line(&seg[pz]));
    spans.push(crate::lines::clone_line(&seg[pz + 1]));
    let mut starts: Vec<usize> = Vec::new();
    starts.push(el.len());
    starts.push(fl.len());
    assert(spans@[0]@ == sv[pz as int] && spans@[1]@ == sv[pz + 1]);
    let mut outs = match crate::scan::scan_lanes(&spans, &starts) {
        Ok(v) => v,
        Err(e) => {
            let line = if e.line == 0 {
                pz
            } else {
                pz + 1
            };
            return Err(
                cluster_err(
                    ErrorKind::NumericParse,
                    line,
                    k,
                    Vec::new(),
                    crate::lines::clone_line(&seg[line]),
                ),
            );
        },
    };
    let fl_vals = outs.pop().unwrap();
    let el_vals = outs.pop().unwrap();
    assert(el_vals@ == spec_scan(sv[pz as int], el@.len() as int)->Some_0);
    assert(fl_vals@ == spec_scan(sv[pz + 1], fl@.len() as int)->Some_0);

    let elements = match tag_bytes(&el_vals) {
        Some(b) => b,
        None => {
            // an element value outside the byte range
            return Err(
                cluster_err(
                    ErrorKind::NumericParse,
                    pz,
                    k,
                    Vec::new(),
                    crate::lines::clone_line(&seg[pz]),
                ),
            );
        },
    };
    let flags = match tag_bytes(&fl_vals) {
        Some(b) => b,
        None => {
            // a flag value outside the byte range
            return Err(
                cluster_err(
                    ErrorKind::NumericParse,
                    pz + 1,
                    k,
                    Vec::new(),
                    crate::lines::clone_line(&seg[pz + 1]),
                ),
            );
        },
    };
    if elements.len() != n {
        // a tag array whose length is not the atom count
        return Err(
            cluster_err(
                ErrorKind::Consistency,
                pz,
                k,
                Vec::new(),
                crate::lines::clone_line(&seg[pz]),
            ),
        );
    }
    if flags.len() != n {
        return Err(
            cluster_err(
                ErrorKind::Consistency,
                pz + 1,
                k,
                Vec::new(),
                crate::lines::clone_line(&seg[pz + 1]),
            ),
        );
    }
    Ok((elements, flags))
}

/// Decodes one cluster segment at physical position `k` under the header's
/// cluster size, exactly as `spec_decode_cluster` reads it. Every error is
/// typed, carries the line it names, and names this cluster.
#[verifier::rlimit(100)]
pub fn decode_cluster(seg: &Vec<Vec<u8>>, k: usize, size: usize) -> (r: Result<
    FrameCluster,
    DecodeError,
>)
    ensures
        decode_result_matches(lines_view(seg@), k as int, size as int, r),
        r is Ok ==> r->Ok_0.wf(k as int, size as int),
{
    let ghost sv = lines_view(seg@);
    proof {
        reveal_strlit("  frame start: ");
        reveal_strlit("  frame end: ");
        reveal_strlit("  metadata:");
        reveal_strlit("  atoms:");
        reveal_strlit("    x coordinates:");
        reveal_strlit("    y coordinates:");
        reveal_strlit("    z coordinates:");
    }
    let marker = crate::lines::marker_prefix();
    if !(0 < seg.len() && crate::text::has_prefix(&seg[0], &marker)) {
        proof {
            if 0 < seg@.len() {
                assert(sv[0] == seg@[0]@);
            }
        }
        let found = if 0 < seg.len() {
            crate::lines::clone_line(&seg[0])
        } else {
            Vec::new()
        };
        return Err(cluster_err(ErrorKind::StructuralFormat, 0, k, marker, found));
    }
    assert(sv[0] == seg@[0]@);

    let p_fs = crate::text::ascii_bytes("  frame start: ");
    if !(1 < seg.len() && crate::text::has_prefix(&seg[1], &p_fs)) {
        proof {
            if 1 < seg@.len() {
                assert(sv[1] == seg@[1]@);
            }
        }
        let found = if 1 < seg.len() {
            crate::lines::clone_line(&seg[1])
        } else {
            Vec::new()
        };
        return Err(cluster_err(ErrorKind::StructuralFormat, 1, k, p_fs, found));
    }
    assert(sv[1] == seg@[1]@);
    let u = match crate::scan::parse_usize_at(&seg[1], p_fs.len(), false) {
        Ok(v) => v,
        Err(e) => {
            return Err(
                cluster_err(ErrorKind::NumericParse, 1, k, p_fs, crate::lines::clone_line(&seg[1])),
            );
        },
    };
    let expected_start = k.checked_mul(size);
    let start_matches = match expected_start {
        Some(v) => u == v,
        None => false,
    };
    if !start_matches {
        // the declared start disagrees with the cluster's physical position
        assert(u != k * size);
        return Err(
            cluster_err(ErrorKind::StructuralFormat, 1, k, p_fs, crate::lines::clone_line(&seg[1])),
        );
    }

    let p_fe = crate::text::ascii_bytes("  frame end: ");
    if !(2 < seg.len() && crate::text::has_prefix(&seg[2], &p_fe)) {
        proof {
            if 2 < seg@.len() {
                assert(sv[2] == seg@[2]@);
            }
        }
        let found = if 2 < seg.len() {
            crate::lines::clone_line(&seg[2])
        } else {
            Vec::new()
        };
        return Err(cluster_err(ErrorKind::StructuralFormat, 2, k, p_fe, found));
    }
    assert(sv[2] == seg@[2]@);
    let e = match crate::scan::parse_usize_at(&seg[2], p_fe.len(), false) {
        Ok(v) => v,
        Err(err) => {
            return Err(
                cluster_err(ErrorKind::NumericParse, 2, k, p_fe, crate::lines::clone_line(&seg[2])),
            );
        },
    };
    if e < u || e - u >= size {
        // the declared range is empty or does not fit the cluster size
        return Err(
            cluster_err(ErrorKind::Consistency, 2, k, p_fe, crate::lines::clone_line(&seg[2])),
        );
    }
    let frames: usize = e - u + 1;

    let p_md = crate::text::ascii_bytes("  metadata:");
    if !(3 < seg.len() && crate::text::has_prefix(&seg[3], &p_md)) {
        proof {
            if 3 < seg@.len() {
                assert(sv[3] == seg@[3]@);
            }
        }
        let found = if 3 < seg.len() {
            crate::lines::clone_line(&seg[3])
        } else {
            Vec::new()
        };
        return Err(cluster_err(ErrorKind::StructuralFormat, 3, k, p_md, found));
    }
    assert(sv[3] == seg@[3]@);

    // find the atoms section, skipping any per-frame metadata lines
    let p_atoms = crate::text::ascii_bytes("  atoms:");
    proof {
        lemma_find_line(sv, 4, atoms_pred());
    }
    let ghost aa = find_line(sv, 4, atoms_pred());
    let mut j: usize = if seg.len() < 4 {
        seg.len()
    } else {
        4
    };
    proof {
        if seg@.len() < 4 {
            assert(aa == seg@.len());
        }
    }
    while j < seg.len() && !crate::text::has_prefix(&seg[j], &p_atoms)
        invariant
            0 <= j <= seg@.len(),
            sv == lines_view(seg@),
            p_atoms@ == lit_bytes("  atoms:"),
            aa == find_line(sv, 4, atoms_pred()),
            j <= aa,
            j >= 4 || j >= seg@.len(),
            forall|t: int| 4 <= t < aa ==> !is_atoms_line(sv[t]),
            aa < sv.len() ==> is_atoms_line(sv[aa]),
        decreases seg@.len() - j,
    {
        assert(sv[j as int] == seg@[j as int]@);
        assert(j < aa) by {
            if j == aa {
                assert(is_atoms_line(sv[aa]));
            }
        }
        j = j + 1;
    }
    assert(j == aa) by {
        if j < seg@.len() {
            assert(sv[j as int] == seg@[j as int]@);
        }
    }
    if j >= seg.len() {
        // no atoms section in this segment
        return Err(cluster_err(ErrorKind::StructuralFormat, seg.len(), k, p_atoms, Vec::new()));
    }
    let has_metadata = j > 4;

    let p_x = crate::text::ascii_bytes("    x coordinates:");
    let (x, px) = match decode_axis_block(seg, j + 1, &p_x, frames, k) {
        Ok(pair) => pair,
        Err(err) => {
            return Err(err);
        },
    };
    let p_y = crate::text::ascii_bytes("    y coordinates:");
    let (y, py) = match decode_axis_block(seg, px, &p_y, frames, k) {
        Ok(pair) => pair,
        Err(err) => {
            return Err(err);
        },
    };
    if y.len() != x.len() {
        // the y axis reports a different atom count
        return Err(cluster_err(ErrorKind::Consistency, px, k, p_y, Vec::new()));
    }
    let p_z = crate::text::ascii_bytes("    z coordinates:");
    let (z, pz) = match decode_axis_block(seg, py, &p_z, frames, k) {
        Ok(pair) => pair,
        Err(err) => {
            return Err(err);
        },
    };
    if z.len() != x.len() {
        // the z axis reports a different atom count
        return Err(cluster_err(ErrorKind::Consistency, py, k, p_z, Vec::new()));
    }
    let pair_tags = match decode_tag_stage(seg, pz, x.len(), k) {
        Ok(p) => p,
        Err(err) => {
            return Err(err);
        },
    };
    let (elements, flags) = pair_tags;

    // nothing but blank lines may follow the tag blocks
    proof {
        lemma_find_line(sv, pz + 2, nonblank_pred());
    }
    let ghost nb = find_line(sv, pz + 2, nonblank_pred());
    let mut w: usize = pz + 2;
    while w < seg.len() && seg[w].len() == 0
        invariant
            pz + 2 <= w <= seg@.len(),
            sv == lines_view(seg@),
            nb == find_line(sv, pz + 2, nonblank_pred()),
            w <= nb,
            forall|t: int| pz + 2 <= t < nb ==> !is_nonblank(sv[t]),
            nb < sv.len() ==> is_nonblank(sv[nb]),
        decreases seg@.len() - w,
    {
        assert(sv[w as int] == seg@[w as int]@);
        assert(w < nb) by {
            if w == nb {
                assert(is_nonblank(sv[nb]));
            }
        }
        w = w + 1;
    }
    assert(w == nb) by {
        if w < seg@.len() {
            assert(sv[w as int] == seg@[w as int]@);
        }
    }
    if w < seg.len() {
        // stray content after the tag blocks
        return Err(
            cluster_err(ErrorKind::StructuralFormat, w, k, Vec::new(), crate::lines::clone_line(
                &seg[w],
            )),
        );
    }

    let cluster = FrameCluster {
        frame_start: u,
        frame_end: e,
        has_metadata,
        atoms: Atoms { x_coordinates: x, y_coordinates: y, z_coordinates: z, elements, flags },
    };
    assert(cluster_matches(cluster, spec_decode_cluster(sv, k as int, size as int)->Ok_0));
    Ok(cluster)
}

/// What the Cluster Decoder returns for the segment `seg` at physical
/// position `k` under cluster size `size`: the decoded cluster carries the
/// grammar's model exactly, or the error is the one the grammar assigns,
/// named for this cluster.
pub open spec fn decode_result_matches(
    seg: Seq<Seq<u8>>,
    k: int,
    size: int,
    r: Result<FrameCluster, DecodeError>,
) -> bool {
    &&& (r is Ok) == (spec_decode_cluster(seg, k, size) is Ok)
    &&& (r is Ok ==> cluster_matches(r->Ok_0, spec_decode_cluster(seg, k, size)->Ok_0))
    &&& (r is Err ==> r->Err_0.is_at(spec_decode_cluster(seg, k, size)->Err_0)
        && r->Err_0.cluster == Some(k as usize))
}

} // verus!
