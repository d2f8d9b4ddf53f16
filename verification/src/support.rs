use vstd::prelude::*;

use rayon::iter::IndexedParallelIterator;
use rayon::iter::IntoParallelRefIterator;
use rayon::iter::ParallelIterator;

use crate::cluster::{decode_cluster, decode_result_matches, FrameCluster};
use crate::error::DecodeError;
use crate::lines::lines_view;

verus! {

/// Relies on rayon's parallel iterators: `par_iter().enumerate().map(..)
/// .collect()` over a vector applies the closure to every element and
/// collects the results in index order. The closure only calls the verified
/// cluster decoder, so each element of the result satisfies that decoder's
/// contract for its own segment and position.
#[verifier::external_body]
pub fn decode_clusters_parallel(segments: &Vec<Vec<Vec<u8>>>, size: usize) -> (r: Vec<
    Result<FrameCluster, DecodeError>,
>)
    ensures
        r@.len() == segments@.len(),
        forall|i: int|
            0 <= i < r@.len() ==> decode_result_matches(
                lines_view(segments@[i]@),
                i,
                size as int,
                #[trigger] r@[i],
            ),
        forall|i: int|
            0 <= i < r@.len() && (#[trigger] r@[i]) is Ok ==> r@[i]->Ok_0.wf(i, size as int),
{
    segments.par_iter().enumerate().map(|(i, seg)| decode_cluster(seg, i, size)).collect()
}

/// Relies on rayon_core's `current_num_threads`: how many workers the
/// parallel phase uses. Reported in diagnostics only.
#[verifier::external_body]
pub fn thread_count() -> usize {
    rayon::current_num_threads()
}

/// Relies on std::time::SystemTime: the wall clock, in milliseconds since
/// the epoch, zero if the clock is before it. Feeds diagnostics only.
#[verifier::external_body]
pub fn now_unix_millis() -> u64 {
    match std::time::SystemTime::now().duration_since(std::time::UNIX_EPOCH) {
        Ok(d) => d.as_millis() as u64,
        Err(_) => 0,
    }
}

/// Relies on the `format!` macro: renders one diagnostic stage message,
/// the label first, then a separator and the value, so the result always
/// begins with the label.
#[verifier::external_body]
pub fn stage_message(label: &str, value: u64) -> (r: String)
    ensures
        r@.len() >= label@.len(),
        r@.subrange(0, label@.len() as int) == label@,
{
    format!("{}: {}", label, value)
}

} // verus!
