use glean_core::ping_store::{
    ping_file_contents, store_ping_start, store_ping_step, Operation, Progress,
};

#[test]
fn the_file_of_a_ping_holds_the_path_and_the_ping() {
    assert_eq!(
        ping_file_contents("/submit/app/metrics/1/doc-id", "{\n  \"a\": 1\n}"),
        b"/submit/app/metrics/1/doc-id\n{\n  \"a\": 1\n}".to_vec()
    );
    assert_eq!(ping_file_contents("", ""), b"\n".to_vec());
    assert_eq!(ping_file_contents("p", ""), b"p\n".to_vec());
    assert_eq!(ping_file_contents("", "body"), b"\nbody".to_vec());
    assert_eq!(ping_file_contents("/p/\u{e9}", "{}"), b"/p/\xc3\xa9\n{}".to_vec());
}

#[test]
fn a_storing_without_failure_renames_last() {
    let (progress, operation) = store_ping_start();
    assert_eq!((progress, operation), (Progress::CreatingDirectory, Operation::CreateDirectory));
    let (progress, operation) = store_ping_step(progress, true);
    assert_eq!((progress, operation), (Progress::Writing, Operation::WriteStagingFile));
    let (progress, operation) = store_ping_step(progress, true);
    assert_eq!((progress, operation), (Progress::Renaming, Operation::Rename));
    let (progress, operation) = store_ping_step(progress, true);
    assert_eq!((progress, operation), (Progress::Stored, Operation::Succeed));
    assert_eq!(store_ping_step(progress, true), (Progress::Stored, Operation::Succeed));
    assert_eq!(store_ping_step(progress, false), (Progress::Stored, Operation::Succeed));
}

#[test]
fn a_failure_ends_the_storing() {
    assert_eq!(
        store_ping_step(Progress::CreatingDirectory, false),
        (Progress::Failed, Operation::Fail)
    );
    assert_eq!(store_ping_step(Progress::Writing, false), (Progress::Failed, Operation::Fail));
    assert_eq!(store_ping_step(Progress::Renaming, false), (Progress::Failed, Operation::Fail));
    assert_eq!(store_ping_step(Progress::Failed, true), (Progress::Failed, Operation::Fail));
    assert_eq!(store_ping_step(Progress::Failed, false), (Progress::Failed, Operation::Fail));
}
