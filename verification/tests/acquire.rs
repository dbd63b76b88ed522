use basespace_dl::acquire::{
    assess_download, build_report, prepare_batch, AcquisitionResult,
};
use basespace_dl::api::DataFile;
use basespace_dl::Error;

fn file(name: &str, size: i64, tag: &str) -> DataFile {
    DataFile {
        id: format!("file-{}", name),
        name: name.to_string(),
        size,
        e_tag: tag.to_string(),
    }
}

#[test]
fn short_body_is_a_size_mismatch() {
    let declared = file("reads.fastq.gz", 1024, "");
    let body = vec![0u8; 1000];
    let verdict = assess_download(&declared, &body, false);
    assert_eq!(
        verdict,
        AcquisitionResult::SizeMismatch { declared: 1024, actual: 1000 }
    );
}

#[test]
fn exact_body_succeeds_without_checksum() {
    let declared = file("reads.fastq.gz", 1024, "not-checked");
    let body = vec![0u8; 1024];
    assert_eq!(assess_download(&declared, &body, false), AcquisitionResult::Success);
}

#[test]
fn exact_body_with_matching_tag_succeeds() {
    let body: Vec<u8> = b"content".to_vec();
    let tag = format!("{:x}", md5::compute(&body));
    let declared = file("reads.fastq.gz", body.len() as i64, &tag);
    assert_eq!(assess_download(&declared, &body, true), AcquisitionResult::Success);
}

#[test]
fn exact_body_with_wrong_tag_is_checksum_mismatch() {
    let body: Vec<u8> = b"content".to_vec();
    let tag = format!("{:x}", md5::compute(b"other"));
    let declared = file("reads.fastq.gz", body.len() as i64, &tag);
    assert_eq!(
        assess_download(&declared, &body, true),
        AcquisitionResult::ChecksumMismatch
    );
}

#[test]
fn negative_declared_size_is_a_size_mismatch() {
    let declared = file("reads.fastq.gz", -1, "");
    let body: Vec<u8> = Vec::new();
    assert_eq!(
        assess_download(&declared, &body, false),
        AcquisitionResult::SizeMismatch { declared: -1, actual: 0 }
    );
}

#[test]
fn batch_continues_past_failures() {
    let files = vec![
        file("bad.fastq.gz", 1024, ""),
        file("good.fastq.gz", 3, ""),
        file("lost.fastq.gz", 5, ""),
    ];
    let outcomes = vec![
        AcquisitionResult::SizeMismatch { declared: 1024, actual: 1000 },
        AcquisitionResult::Success,
        AcquisitionResult::TransportError,
    ];
    let report = build_report(&files, &outcomes);
    assert_eq!(report.total, 3);
    assert_eq!(report.succeeded, 1);
    assert_eq!(
        report.failed_files,
        vec!["bad.fastq.gz".to_string(), "lost.fastq.gz".to_string()]
    );
    assert!(report.is_success());
}

#[test]
fn report_without_any_success_fails() {
    let files = vec![file("bad.fastq.gz", 1, "")];
    let outcomes = vec![AcquisitionResult::TransportError];
    let report = build_report(&files, &outcomes);
    assert_eq!(report.succeeded, 0);
    assert!(!report.is_success());
}

#[test]
fn empty_selection_is_refused() {
    let files: Vec<DataFile> = Vec::new();
    assert!(matches!(prepare_batch(&files), Err(Error::EmptySelection)));
}

#[test]
fn batch_info_sums_declared_sizes() {
    let files = vec![file("a", 10, ""), file("b", 32, "")];
    let info = prepare_batch(&files).expect("non-empty batch");
    assert_eq!(info.num_files, 2);
    assert_eq!(info.total_size, 42);
}

#[test]
fn batch_info_handles_extreme_sizes() {
    let files = vec![file("a", i64::MAX, ""), file("b", i64::MAX, "")];
    let info = prepare_batch(&files).expect("non-empty batch");
    assert_eq!(info.total_size, 2 * (i64::MAX as i128));
}
