use vstd::prelude::*;

verus! {

/// The taxonomy of recoverable decoding failures.
///
/// `StructuralFormat`: an expected literal prefix or marker was absent at an
/// expected line. `UnsupportedFeature`: a recognized option that this decoder
/// does not implement was selected (checkpoints). `NumericParse`: a field or
/// coordinate token could not be parsed as the expected numeric type, or a
/// scan hit a non-delimiter character where a delimiter was required.
/// `Consistency`: a cross-cluster invariant was violated.
#[derive(Clone, Copy, Debug, PartialEq, Eq, Structural)]
pub enum ErrorKind {
    StructuralFormat,
    UnsupportedFeature,
    NumericParse,
    Consistency,
}

/// A typed decoding error. `line` locates the offending line: for header
/// errors it indexes the header segment, for cluster errors the cluster
/// segment named by `cluster`. `expected` carries the literal text that was
/// demanded there (empty where no literal was), and is pinned by the
/// grammar contracts through `is_at`; `found` carries the raw line that was
/// seen and stays diagnostic text.
#[derive(Clone, Debug)]
pub struct DecodeError {
    pub kind: ErrorKind,
    pub line: usize,
    pub cluster: Option<usize>,
    pub expected: Vec<u8>,
    pub found: Vec<u8>,
}

/// The spec-level image of a decoding error: its kind, the line it names,
/// and the literal text that was expected there (empty where no literal was
/// demanded).
pub struct ErrAt {
    pub kind: ErrorKind,
    pub line: int,
    pub expected: Seq<u8>,
}

impl DecodeError {
    /// True when this error reports `kind` at line `line` and carries the
    /// expected text `expected` (as its spec image).
    pub open spec fn is_at(self, e: ErrAt) -> bool {
        self.kind == e.kind && self.line == e.line && self.expected@ == e.expected
    }
}

} // verus!
