//! The file acquisition engine's decision core: planning a download
//! batch, judging each downloaded artifact, and aggregating per-file
//! outcomes into the post-run report.
//!
//! Downloads are isolated per file: one bad artifact is recorded and the
//! batch carries on, so the batch guarantees at-most-partial loss, never
//! all-or-nothing atomicity.

use vstd::prelude::*;
use crate::api::DataFile;
use crate::etag::verify_outcome;
use crate::etag::verify_s3_etag;
use crate::Error;

verus! {

/// The outcome recorded for one file of a batch.
#[derive(Debug, PartialEq, Eq, Structural, Clone, Copy)]
pub enum AcquisitionResult {
    /// The artifact arrived with the declared byte count (and tag, where
    /// checked).
    Success,
    /// The artifact's byte count differs from the declared size; the
    /// size is authoritative, so the artifact is corrupt.
    SizeMismatch { declared: i64, actual: usize },
    /// The recomputed content tag differs from the declared one, or the
    /// declared one could not be recomputed; advisory only.
    ChecksumMismatch,
    /// The transfer itself failed.
    TransportError,
}

/// What a download batch is up against: how many files, and how many
/// bytes they declare in total.
pub struct BatchInfo {
    pub num_files: usize,
    pub total_size: i128,
}

/// The declared sizes of a file set, summed.
pub open spec fn sum_sizes(files: Seq<DataFile>) -> int
    decreases files.len(),
{
    if files.len() == 0 {
        0
    } else {
        sum_sizes(files.drop_last()) + files.last()@.size
    }
}

/// Plan a download batch: an empty selection is refused, otherwise the
/// file count and the total declared byte count are reported.
pub fn prepare_batch(files: &Vec<DataFile>) -> (r: Result<BatchInfo, Error>)
    ensures
        files@.len() == 0 ==> (r matches Err(e) && e is EmptySelection),
        files@.len() > 0 ==> (r matches Ok(b) && b.num_files == files@.len() && b.total_size
            == sum_sizes(files@)),
{
    if files.is_empty() {
        return Err(Error::EmptySelection);
    }
    let n = files.len();
    let mut total: i128 = 0;
    let mut i: usize = 0;
    proof {
        assert(files@.take(0) =~= Seq::<DataFile>::empty());
    }
    while i < n
        invariant
            n == files@.len(),
            i <= n,
            total == sum_sizes(files@.take(i as int)),
            -(i as int) * 0x8000_0000_0000_0000 <= total <= (i as int) * 0x7fff_ffff_ffff_ffff,
        decreases n - i,
    {
        let size = files[i].size;
        total = total + size as i128;
        i += 1;
        proof {
            let taken = files@.take(i as int);
            assert(taken.drop_last() =~= files@.take(i - 1));
            assert(taken.last() == files@[i - 1]);
        }
    }
    proof {
        assert(files@.take(n as int) =~= files@);
    }
    Ok(BatchInfo { num_files: n, total_size: total })
}

/// Judge a downloaded artifact by its on-disk byte count alone: the
/// count must equal the declared size, which is authoritative.
pub fn assess_size(file: &DataFile, actual: usize) -> (r: AcquisitionResult)
    ensures
        (file@.size >= 0 && file@.size == actual) ==> r == AcquisitionResult::Success,
        (file@.size < 0 || file@.size != actual) ==> (r matches
            AcquisitionResult::SizeMismatch { declared, actual: a } && declared == file.size
            && a == actual),
{
    if file.size < 0 || file.size as u64 != actual as u64 {
        AcquisitionResult::SizeMismatch { declared: file.size, actual }
    } else {
        AcquisitionResult::Success
    }
}

/// Judge one downloaded artifact against its declared metadata. The byte
/// count must equal the declared size — that check is authoritative.
/// Only when it passes and `check_tag` is set is the declared content
/// tag recomputed and compared; a tag that cannot be recomputed counts
/// as a checksum mismatch, and either way the verdict is advisory.
pub fn assess_download(file: &DataFile, body: &Vec<u8>, check_tag: bool) -> (r:
    AcquisitionResult)
    ensures
        (file@.size < 0 || file@.size != body@.len()) ==> (r matches
            AcquisitionResult::SizeMismatch { declared, actual } && declared == file.size
            && actual == body@.len()),
        file@.size == body@.len() && !check_tag ==> r == AcquisitionResult::Success,
        file@.size == body@.len() && check_tag ==> r == (
        if verify_outcome(body@, file@.e_tag) == Ok::<bool, Error>(true) {
            AcquisitionResult::Success
        } else {
            AcquisitionResult::ChecksumMismatch
        }),
{
    let actual = body.len();
    if file.size < 0 || file.size as u64 != actual as u64 {
        return AcquisitionResult::SizeMismatch { declared: file.size, actual };
    }
    if !check_tag {
        return AcquisitionResult::Success;
    }
    match verify_s3_etag(body, file.e_tag.as_str()) {
        Ok(true) => AcquisitionResult::Success,
        Ok(false) => AcquisitionResult::ChecksumMismatch,
        Err(_) => AcquisitionResult::ChecksumMismatch,
    }
}

/// How many outcomes of a batch are successes.
pub open spec fn success_count(outcomes: Seq<AcquisitionResult>) -> int
    decreases outcomes.len(),
{
    if outcomes.len() == 0 {
        0
    } else {
        success_count(outcomes.drop_last()) + if outcomes.last() is Success {
            1int
        } else {
            0int
        }
    }
}

/// The names of the files whose outcome was a failure, in batch order:
/// exactly the set worth retrying.
pub open spec fn failed_names(files: Seq<DataFile>, outcomes: Seq<AcquisitionResult>) -> Seq<
    Seq<char>,
>
    decreases files.len(),
{
    if files.len() == 0 || outcomes.len() != files.len() {
        Seq::empty()
    } else if outcomes.last() is Success {
        failed_names(files.drop_last(), outcomes.drop_last())
    } else {
        failed_names(files.drop_last(), outcomes.drop_last()).push(files.last()@.name)
    }
}

/// The post-run report of a download batch.
#[derive(Debug)]
pub struct AcquisitionReport {
    pub total: usize,
    pub succeeded: usize,
    pub failed_files: Vec<String>,
}

impl AcquisitionReport {
    /// The batch counts as successful when at least one target file was
    /// acquired correctly.
    pub fn is_success(&self) -> (r: bool)
        ensures
            r == (self.succeeded >= 1),
    {
        self.succeeded >= 1
    }
}

/// Aggregate per-file outcomes into the post-run report: the success
/// count and the names of the files that must be retried. Failures never
/// abort the batch; they are collected here instead.
pub fn build_report(files: &Vec<DataFile>, outcomes: &Vec<AcquisitionResult>) -> (r:
    AcquisitionReport)
    requires
        files@.len() == outcomes@.len(),
    ensures
        r.total == files@.len(),
        r.succeeded == success_count(outcomes@),
        r.failed_files@.map_values(|s: String| s@) == failed_names(files@, outcomes@),
{
    let n = files.len();
    let mut succeeded: usize = 0;
    let mut failed_files: Vec<String> = Vec::new();
    let mut i: usize = 0;
    proof {
        assert(files@.take(0) =~= Seq::<DataFile>::empty());
        assert(outcomes@.take(0) =~= Seq::<AcquisitionResult>::empty());
    }
    while i < n
        invariant
            n == files@.len(),
            outcomes@.len() == files@.len(),
            i <= n,
            succeeded <= i,
            succeeded == success_count(outcomes@.take(i as int)),
            failed_files@.map_values(|s: String| s@) == failed_names(
                files@.take(i as int),
                outcomes@.take(i as int),
            ),
        decreases n - i,
    {
        let is_ok = match outcomes[i] {
            AcquisitionResult::Success => true,
            _ => false,
        };
        if is_ok {
            succeeded += 1;
        } else {
            failed_files.push(files[i].name.clone());
        }
        i += 1;
        proof {
            let tf = files@.take(i as int);
            let to = outcomes@.take(i as int);
            assert(tf.drop_last() =~= files@.take(i - 1));
            assert(to.drop_last() =~= outcomes@.take(i - 1));
            assert(tf.last() == files@[i - 1]);
            assert(to.last() == outcomes@[i - 1]);
            assert(failed_files@.map_values(|s: String| s@) =~= failed_names(tf, to));
        }
    }
    proof {
        assert(files@.take(n as int) =~= files@);
        assert(outcomes@.take(n as int) =~= outcomes@);
    }
    AcquisitionReport { total: n, succeeded, failed_files }
}

} // verus!
