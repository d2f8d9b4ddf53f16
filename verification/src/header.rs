use vstd::prelude::*;

use crate::decimal::{parse_decimal, spec_parse_decimal, Decimal};
use crate::error::{DecodeError, ErrAt, ErrorKind};
use crate::lines::{clone_line, copy_range, lines_view};
use crate::scan::{parse_usize_at, spec_parse_usize};
use crate::text::{ascii_bytes, bytes_eq, has_prefix, lit_bytes, spec_has_prefix};

verus! {

/// The scalar parameters of a decoded file's header. The two real-valued
/// fields are held exactly as decimals.
#[derive(Clone, Copy, Debug, PartialEq, Eq, Structural)]
pub struct Header {
    pub frame_time: Decimal,
    pub spatial_resolution: Decimal,
    pub uses_checkpoints: bool,
    pub frame_count: usize,
    pub frame_cluster_size: usize,
}

impl Header {
    /// The frame time in femtoseconds.
    pub fn frame_time(&self) -> (r: Decimal)
        ensures
            r == self.frame_time,
    {
        self.frame_time
    }

    /// The spatial resolution in approximate picometers.
    pub fn spatial_resolution(&self) -> (r: Decimal)
        ensures
            r == self.spatial_resolution,
    {
        self.spatial_resolution
    }

    /// Whether the file uses checkpoints; always false in a decoded header,
    /// since the checkpoint variant is rejected.
    pub fn uses_checkpoints(&self) -> (r: bool)
        ensures
            r == self.uses_checkpoints,
    {
        self.uses_checkpoints
    }

    pub fn frame_count(&self) -> (r: usize)
        ensures
            r == self.frame_count,
    {
        self.frame_count
    }

    pub fn frame_cluster_size(&self) -> (r: usize)
        ensures
            r == self.frame_cluster_size,
    {
        self.frame_cluster_size
    }
}

/// Line `i` of the segment exists and carries the literal prefix `p`.
pub open spec fn prefix_ok(hl: Seq<Seq<u8>>, i: int, p: Seq<u8>) -> bool {
    0 <= i < hl.len() && spec_has_prefix(hl[i], p)
}

/// Line `i` of the segment exists and is blank.
pub open spec fn blank_ok(hl: Seq<Seq<u8>>, i: int) -> bool {
    0 <= i < hl.len() && hl[i].len() == 0
}

/// Some line after the fixed header grammar is not blank: the file carries
/// a document-level metadata section.
pub open spec fn spec_metadata_present(hl: Seq<Seq<u8>>) -> bool {
    exists|i: int| 12 <= i < hl.len() && hl[i].len() > 0
}

/// The Header Parser's grammar over the header segment's lines, checked by
/// strict literal-prefix matching line by line; a missing line counts as a
/// missing prefix at its index.
pub open spec fn spec_parse_header(hl: Seq<Seq<u8>>) -> Result<(Header, bool), ErrAt> {
    if !prefix_ok(hl, 0, lit_bytes("specification:")) {
        Err(ErrAt { kind: ErrorKind::StructuralFormat, line: 0, expected: lit_bytes("specification:") })
    } else if !prefix_ok(hl, 1, lit_bytes("  - https://github.com")) {
        Err(ErrAt { kind: ErrorKind::StructuralFormat, line: 1, expected: lit_bytes("  - https://github.com") })
    } else if !blank_ok(hl, 2) {
        Err(ErrAt { kind: ErrorKind::StructuralFormat, line: 2, expected: Seq::empty() })
    } else if !prefix_ok(hl, 3, lit_bytes("header:")) {
        Err(ErrAt { kind: ErrorKind::StructuralFormat, line: 3, expected: lit_bytes("header:") })
    } else if !prefix_ok(hl, 4, lit_bytes("  frame time in femtoseconds: ")) {
        Err(ErrAt { kind: ErrorKind::StructuralFormat, line: 4, expected: lit_bytes("  frame time in femtoseconds: ") })
    } else if spec_parse_decimal(hl[4], lit_bytes("  frame time in femtoseconds: ").len() as int)
        is None {
        Err(ErrAt { kind: ErrorKind::NumericParse, line: 4, expected: lit_bytes("  frame time in femtoseconds: ") })
    } else if !prefix_ok(hl, 5, lit_bytes("  spatial resolution in approximate picometers: ")) {
        Err(ErrAt { kind: ErrorKind::StructuralFormat, line: 5, expected: lit_bytes("  spatial resolution in approximate picometers: ") })
    } else if spec_parse_decimal(
        hl[5],
        lit_bytes("  spatial resolution in approximate picometers: ").len() as int,
    ) is None {
        Err(ErrAt { kind: ErrorKind::NumericParse, line: 5, expected: lit_bytes("  spatial resolution in approximate picometers: ") })
    } else if !prefix_ok(hl, 6, lit_bytes("  uses checkpoints: ")) {
        Err(ErrAt { kind: ErrorKind::StructuralFormat, line: 6, expected: lit_bytes("  uses checkpoints: ") })
    } else if hl[6].subrange(lit_bytes("  uses checkpoints: ").len() as int, hl[6].len() as int)
        == lit_bytes("true") {
        Err(ErrAt { kind: ErrorKind::UnsupportedFeature, line: 6, expected: lit_bytes("  uses checkpoints: ") })
    } else if hl[6].subrange(lit_bytes("  uses checkpoints: ").len() as int, hl[6].len() as int)
        != lit_bytes("false") {
        Err(ErrAt { kind: ErrorKind::NumericParse, line: 6, expected: lit_bytes("  uses checkpoints: ") })
    } else if !prefix_ok(hl, 7, lit_bytes("  frame count: ")) {
        Err(ErrAt { kind: ErrorKind::StructuralFormat, line: 7, expected: lit_bytes("  frame count: ") })
    } else if spec_parse_usize(hl[7], lit_bytes("  frame count: ").len() as int, true) is None {
        Err(ErrAt { kind: ErrorKind::NumericParse, line: 7, expected: lit_bytes("  frame count: ") })
    } else if !prefix_ok(hl, 8, lit_bytes("  frame cluster size: ")) {
        Err(ErrAt { kind: ErrorKind::StructuralFormat, line: 8, expected: lit_bytes("  frame cluster size: ") })
    } else if spec_parse_usize(hl[8], lit_bytes("  frame cluster size: ").len() as int, true)
        is None {
        Err(ErrAt { kind: ErrorKind::NumericParse, line: 8, expected: lit_bytes("  frame cluster size: ") })
    } else if !blank_ok(hl, 9) {
        Err(ErrAt { kind: ErrorKind::StructuralFormat, line: 9, expected: Seq::empty() })
    } else if !prefix_ok(hl, 10, lit_bytes("metadata:")) {
        Err(ErrAt { kind: ErrorKind::StructuralFormat, line: 10, expected: lit_bytes("metadata:") })
    } else if !blank_ok(hl, 11) {
        Err(ErrAt { kind: ErrorKind::StructuralFormat, line: 11, expected: Seq::empty() })
    } else {
        Ok(
            (
                Header {
                    frame_time: spec_parse_decimal(
                        hl[4],
                        lit_bytes("  frame time in femtoseconds: ").len() as int,
                    )->Some_0,
                    spatial_resolution: spec_parse_decimal(
                        hl[5],
                        lit_bytes("  spatial resolution in approximate picometers: ").len() as int,
                    )->Some_0,
                    uses_checkpoints: false,
                    frame_count: spec_parse_usize(
                        hl[7],
                        lit_bytes("  frame count: ").len() as int,
                        true,
                    )->Some_0,
                    frame_cluster_size: spec_parse_usize(
                        hl[8],
                        lit_bytes("  frame cluster size: ").len() as int,
                        true,
                    )->Some_0,
                },
                spec_metadata_present(hl),
            ),
        )
    }
}

/// The literal text line `j` of the fixed header grammar must begin with;
/// empty for the blank separator lines.
pub open spec fn header_expected(j: int) -> Seq<u8> {
    if j == 0 {
        lit_bytes("specification:")
    } else if j == 1 {
        lit_bytes("  - https://github.com")
    } else if j == 3 {
        lit_bytes("header:")
    } else if j == 4 {
        lit_bytes("  frame time in femtoseconds: ")
    } else if j == 5 {
        lit_bytes("  spatial resolution in approximate picometers: ")
    } else if j == 6 {
        lit_bytes("  uses checkpoints: ")
    } else if j == 7 {
        lit_bytes("  frame count: ")
    } else if j == 8 {
        lit_bytes("  frame cluster size: ")
    } else if j == 10 {
        lit_bytes("metadata:")
    } else {
        Seq::empty()
    }
}

/// Line `j` meets its structural requirement: it carries its literal
/// prefix, or is blank where the grammar demands a blank separator.
pub open spec fn header_prefix_met(hl: Seq<Seq<u8>>, j: int) -> bool {
    if j == 2 || j == 9 || j == 11 {
        blank_ok(hl, j)
    } else {
        prefix_ok(hl, j, header_expected(j))
    }
}

/// Line `j` is fully valid: its structural requirement holds and, where the
/// line carries a field, the field parses (with the checkpoint flag at its
/// one accepted literal).
pub open spec fn header_line_valid(hl: Seq<Seq<u8>>, j: int) -> bool {
    &&& header_prefix_met(hl, j)
    &&& (j == 4 ==> spec_parse_decimal(
        hl[4],
        lit_bytes("  frame time in femtoseconds: ").len() as int,
    ) is Some)
    &&& (j == 5 ==> spec_parse_decimal(
        hl[5],
        lit_bytes("  spatial resolution in approximate picometers: ").len() as int,
    ) is Some)
    &&& (j == 6 ==> hl[6].subrange(
        lit_bytes("  uses checkpoints: ").len() as int,
        hl[6].len() as int,
    ) == lit_bytes("false"))
    &&& (j == 7 ==> spec_parse_usize(hl[7], lit_bytes("  frame count: ").len() as int, true)
        is Some)
    &&& (j == 8 ==> spec_parse_usize(
        hl[8],
        lit_bytes("  frame cluster size: ").len() as int,
        true,
    ) is Some)
}

/// Where every earlier line of the header grammar is valid and line `j`
/// lacks its required literal prefix (or is not blank where a separator is
/// demanded), the grammar rejects with a structural-format error naming
/// exactly line `j` and its expected text.
pub proof fn lemma_header_grammar_rejects(hl: Seq<Seq<u8>>, j: int)
    requires
        0 <= j < 12,
        !header_prefix_met(hl, j),
        forall|t: int| 0 <= t < j ==> header_line_valid(hl, t),
    ensures
        spec_parse_header(hl) is Err,
        spec_parse_header(hl)->Err_0 == (ErrAt {
            kind: ErrorKind::StructuralFormat,
            line: j,
            expected: header_expected(j),
        }),
{
    reveal_strlit("true");
    reveal_strlit("false");
    if j > 0 {
        assert(header_line_valid(hl, 0));
    }
    if j > 1 {
        assert(header_line_valid(hl, 1));
    }
    if j > 2 {
        assert(header_line_valid(hl, 2));
    }
    if j > 3 {
        assert(header_line_valid(hl, 3));
    }
    if j > 4 {
        assert(header_line_valid(hl, 4));
    }
    if j > 5 {
        assert(header_line_valid(hl, 5));
    }
    if j > 6 {
        assert(header_line_valid(hl, 6));
    }
    if j > 7 {
        assert(header_line_valid(hl, 7));
    }
    if j > 8 {
        assert(header_line_valid(hl, 8));
    }
    if j > 9 {
        assert(header_line_valid(hl, 9));
    }
    if j > 10 {
        assert(header_line_valid(hl, 10));
    }
    if j > 6 {
        // the checkpoint flag reads as its one accepted literal, not the
        // rejected one
        assert(lit_bytes("true").len() == 4 && lit_bytes("false").len() == 5);
        assert(hl[6].subrange(
            lit_bytes("  uses checkpoints: ").len() as int,
            hl[6].len() as int,
        ) != lit_bytes("true"));
    }
    // one case per grammar line, so each branch of the grammar's if-chain
    // resolves against its own prefix and expected text
    let want = ErrAt { kind: ErrorKind::StructuralFormat, line: j, expected: header_expected(j) };
    if j == 0 {
        assert(spec_parse_header(hl)->Err_0 == want);
    } else if j == 1 {
        assert(spec_parse_header(hl)->Err_0 == want);
    } else if j == 2 {
        assert(spec_parse_header(hl)->Err_0 == want);
    } else if j == 3 {
        assert(spec_parse_header(hl)->Err_0 == want);
    } else if j == 4 {
        assert(spec_parse_header(hl)->Err_0 == want);
    } else if j == 5 {
        assert(spec_parse_header(hl)->Err_0 == want);
    } else if j == 6 {
        assert(spec_parse_header(hl)->Err_0 == want);
    } else if j == 7 {
        assert(spec_parse_header(hl)->Err_0 == want);
    } else if j == 8 {
        assert(spec_parse_header(hl)->Err_0 == want);
    } else if j == 9 {
        assert(spec_parse_header(hl)->Err_0 == want);
    } else if j == 10 {
        assert(spec_parse_header(hl)->Err_0 == want);
    } else {
        assert(spec_parse_header(hl)->Err_0 == want);
    }
}

fn make_err(kind: ErrorKind, line: usize, expected: Vec<u8>, found: Vec<u8>) -> (r: DecodeError)
    ensures
        r.kind == kind,
        r.line == line,
        r.expected == expected,
        r.cluster.is_none(),
{
    DecodeError { kind, line, cluster: None, expected, found }
}

/// The line at `i`, copied, or an empty vector where the segment ends early;
/// diagnostic text for errors.
fn line_or_empty(hl: &Vec<Vec<u8>>, i: usize) -> Vec<u8> {
    if i < hl.len() {
        clone_line(&hl[i])
    } else {
        Vec::new()
    }
}

/// Line `i` exists and starts with `p`.
fn prefix_at(hl: &Vec<Vec<u8>>, i: usize, p: &Vec<u8>) -> (r: bool)
    ensures
        r == prefix_ok(lines_view(hl@), i as int, p@),
{
    if i < hl.len() {
        let ok = has_prefix(&hl[i], p);
        assert(lines_view(hl@)[i as int] == hl@[i as int]@);
        ok
    } else {
        false
    }
}

/// Line `i` exists and is blank.
fn blank_at(hl: &Vec<Vec<u8>>, i: usize) -> (r: bool)
    ensures
        r == blank_ok(lines_view(hl@), i as int),
{
    if i < hl.len() {
        let ok = hl[i].len() == 0;
        assert(lines_view(hl@)[i as int] == hl@[i as int]@);
        ok
    } else {
        false
    }
}

/// The Header Parser: validates and extracts the scalar fields of the header
/// segment by strict literal-prefix matching. Returns the header, whether a
/// document-level metadata section is present, and the reference line of the
/// specification list; or the typed error that `spec_parse_header` assigns,
/// at the line it names.
pub fn parse_header(hl: &Vec<Vec<u8>>) -> (r: Result<(Header, bool, Vec<u8>), DecodeError>)
    ensures
        (r is Ok) == (spec_parse_header(lines_view(hl@)) is Ok),
        r is Ok ==> r->Ok_0.0 == spec_parse_header(lines_view(hl@))->Ok_0.0,
        r is Ok ==> r->Ok_0.1 == spec_parse_header(lines_view(hl@))->Ok_0.1,
        r is Ok ==> r->Ok_0.2@ == lines_view(hl@)[1],
        r is Err ==> spec_parse_header(lines_view(hl@)) is Err && r->Err_0.is_at(
            spec_parse_header(lines_view(hl@))->Err_0,
        ) && r->Err_0.cluster is None,
{
    let ghost hv = lines_view(hl@);
    proof {
        reveal_strlit("specification:");
        reveal_strlit("  - https://github.com");
        reveal_strlit("header:");
        reveal_strlit("  frame time in femtoseconds: ");
        reveal_strlit("  spatial resolution in approximate picometers: ");
        reveal_strlit("  uses checkpoints: ");
        reveal_strlit("true");
        reveal_strlit("false");
        reveal_strlit("  frame count: ");
        reveal_strlit("  frame cluster size: ");
        reveal_strlit("metadata:");
    }
    let p0 = ascii_bytes("specification:");
    if !prefix_at(hl, 0, &p0) {
        return Err(make_err(ErrorKind::StructuralFormat, 0, p0, line_or_empty(hl, 0)));
    }
    let p1 = ascii_bytes("  - https://github.com");
    if !prefix_at(hl, 1, &p1) {
        return Err(make_err(ErrorKind::StructuralFormat, 1, p1, line_or_empty(hl, 1)));
    }
    if !blank_at(hl, 2) {
        return Err(make_err(ErrorKind::StructuralFormat, 2, Vec::new(), line_or_empty(hl, 2)));
    }
    let p3 = ascii_bytes("header:");
    if !prefix_at(hl, 3, &p3) {
        return Err(make_err(ErrorKind::StructuralFormat, 3, p3, line_or_empty(hl, 3)));
    }
    let p4 = ascii_bytes("  frame time in femtoseconds: ");
    if !prefix_at(hl, 4, &p4) {
        return Err(make_err(ErrorKind::StructuralFormat, 4, p4, line_or_empty(hl, 4)));
    }
    assert(hv[4] == hl@[4]@);
    let frame_time = match parse_decimal(&hl[4], p4.len()) {
        Ok(d) => d,
        Err(e) => {
            return Err(make_err(ErrorKind::NumericParse, 4, p4, line_or_empty(hl, 4)));
        },
    };
    let p5 = ascii_bytes("  spatial resolution in approximate picometers: ");
    if !prefix_at(hl, 5, &p5) {
        return Err(make_err(ErrorKind::StructuralFormat, 5, p5, line_or_empty(hl, 5)));
    }
    assert(hv[5] == hl@[5]@);
    let spatial_resolution = match parse_decimal(&hl[5], p5.len()) {
        Ok(d) => d,
        Err(e) => {
            return Err(make_err(ErrorKind::NumericParse, 5, p5, line_or_empty(hl, 5)));
        },
    };
    let p6 = ascii_bytes("  uses checkpoints: ");
    if !prefix_at(hl, 6, &p6) {
        return Err(make_err(ErrorKind::StructuralFormat, 6, p6, line_or_empty(hl, 6)));
    }
    assert(hv[6] == hl@[6]@);
    let rest = copy_range(&hl[6], p6.len(), hl[6].len());
    let lit_true = ascii_bytes("true");
    if bytes_eq(&rest, &lit_true) {
        // a recognized option that this decoder does not implement
        return Err(make_err(ErrorKind::UnsupportedFeature, 6, p6, line_or_empty(hl, 6)));
    }
    let lit_false = ascii_bytes("false");
    if !bytes_eq(&rest, &lit_false) {
        return Err(make_err(ErrorKind::NumericParse, 6, p6, line_or_empty(hl, 6)));
    }
    let p7 = ascii_bytes("  frame count: ");
    if !prefix_at(hl, 7, &p7) {
        return Err(make_err(ErrorKind::StructuralFormat, 7, p7, line_or_empty(hl, 7)));
    }
    assert(hv[7] == hl@[7]@);
    let frame_count = match parse_usize_at(&hl[7], p7.len(), true) {
        Ok(v) => v,
        Err(e) => {
            return Err(make_err(ErrorKind::NumericParse, 7, p7, line_or_empty(hl, 7)));
        },
    };
    let p8 = ascii_bytes("  frame cluster size: ");
    if !prefix_at(hl, 8, &p8) {
        return Err(make_err(ErrorKind::StructuralFormat, 8, p8, line_or_empty(hl, 8)));
    }
    assert(hv[8] == hl@[8]@);
    let frame_cluster_size = match parse_usize_at(&hl[8], p8.len(), true) {
        Ok(v) => v,
        Err(e) => {
            return Err(make_err(ErrorKind::NumericParse, 8, p8, line_or_empty(hl, 8)));
        },
    };
    if !blank_at(hl, 9) {
        return Err(make_err(ErrorKind::StructuralFormat, 9, Vec::new(), line_or_empty(hl, 9)));
    }
    let p10 = ascii_bytes("metadata:");
    if !prefix_at(hl, 10, &p10) {
        return Err(make_err(ErrorKind::StructuralFormat, 10, p10, line_or_empty(hl, 10)));
    }
    if !blank_at(hl, 11) {
        return Err(make_err(ErrorKind::StructuralFormat, 11, Vec::new(), line_or_empty(hl, 11)));
    }
    // whether a document-level metadata section follows the fixed grammar
    let mut metadata_present = false;
    let mut i: usize = 12;
    while i < hl.len()
        invariant
            12 <= i <= hl@.len(),
            hv == lines_view(hl@),
            metadata_present == exists|t: int| 12 <= t < i && hv[t].len() > 0,
        decreases hl@.len() - i,
    {
        assert(hv[i as int] == hl@[i as int]@);
        if hl[i].len() > 0 {
            metadata_present = true;
        }
        i = i + 1;
    }
    assert(metadata_present == spec_metadata_present(hv));
    let spec_line = clone_line(&hl[1]);
    let header = Header {
        frame_time,
        spatial_resolution,
        uses_checkpoints: false,
        frame_count,
        frame_cluster_size,
    };
    assert(header == spec_parse_header(hv)->Ok_0.0);
    Ok((header, metadata_present, spec_line))
}

} // verus!
