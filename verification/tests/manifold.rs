use artifact_groups::manifold::Bucket;
use artifact_groups::manifold::Upload;
use artifact_groups::manifold::UploadError;

#[test]
fn bucket_info_names_each_bucket() {
    let logs = Bucket::EventLogs.info();
    assert_eq!(logs.name, "buck2_logs");
    assert_eq!(logs.key, "buck2_logs-key");

    let dumps = Bucket::RageDumps.info();
    assert_eq!(dumps.name, "buck2_rage_dumps");
    assert_eq!(dumps.key, "buck2_rage_dumps-key");

    let re = Bucket::ReLogs.info();
    assert_eq!(re.name, "buck2_re_logs");
    assert_eq!(re.key, "buck2_re_logs-key");
}

#[test]
fn upload_keeps_bucket_and_filename() {
    let up = Upload::new(Bucket::EventLogs, "events.json");
    assert_eq!(up.bucket, Bucket::EventLogs);
    assert_eq!(up.filename, "events.json");
}

#[test]
fn upload_errors_carry_their_context() {
    let e = UploadError::FileUploadExitCode {
        path: String::from("/tmp/log"),
        code: 3,
        stderr: String::from("denied"),
    };
    assert!(matches!(
        e,
        UploadError::FileUploadExitCode { code: 3, .. }
    ));
    assert!(matches!(UploadError::FileNotFound, UploadError::FileNotFound));
}
