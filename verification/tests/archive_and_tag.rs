use resumable_jobs::archive::FileArchiverJob;
use resumable_jobs::archive::FileArchiverJobInit;
use resumable_jobs::archive::ObjectType;
use resumable_jobs::job::run_job;
use resumable_jobs::job::JobError;
use resumable_jobs::job::JobReportUpdate;
use resumable_jobs::job::JobRunResult;
use resumable_jobs::job::Library;
use resumable_jobs::job::StatefulJob;
use resumable_jobs::job::WorkerContext;
use resumable_jobs::store::FilePathRecord;
use resumable_jobs::store::Store;
use resumable_jobs::tag::Tag;

fn strs(xs: &[&str]) -> Vec<String> {
    xs.iter().map(|x| x.to_string()).collect()
}

fn rec(id: u64, loc: u64, parent: &[&str], name: &str, is_dir: bool) -> FilePathRecord {
    FilePathRecord {
        id,
        location_id: loc,
        materialized_path: strs(parent),
        name: name.to_string(),
        is_dir,
        object_id: None,
    }
}

fn ctx_with(records: Vec<FilePathRecord>) -> WorkerContext {
    WorkerContext { library: Library { db: Store { records } }, events: Vec::new() }
}

#[test]
fn archiving_a_directory_requests_root_cleanup() {
    let mut ctx = ctx_with(vec![rec(5, 1, &["a"], "stuff", true)]);
    let job = FileArchiverJob {};
    let outcome = run_job(&job, &mut ctx, FileArchiverJobInit { location_id: 1, path_id: 5 });
    match outcome.result {
        JobRunResult::Completed(out) => {
            assert!(out.remove_root);
            assert_eq!(out.root_path, strs(&["a", "stuff"]));
            assert_eq!(out.init, FileArchiverJobInit { location_id: 1, path_id: 5 });
        }
        _ => panic!("expected completed run"),
    }
    assert_eq!(outcome.steps_executed, 1);
    assert_eq!(
        ctx.events,
        vec![JobReportUpdate::TaskCount(1), JobReportUpdate::CompletedTaskCount(1)]
    );
}

#[test]
fn archiving_a_file_needs_no_cleanup() {
    let mut ctx = ctx_with(vec![rec(9, 1, &[], "song.mp3", false)]);
    let job = FileArchiverJob {};
    let outcome = run_job(&job, &mut ctx, FileArchiverJobInit { location_id: 1, path_id: 9 });
    match outcome.result {
        JobRunResult::Completed(out) => {
            assert!(!out.remove_root);
            assert_eq!(out.root_path, strs(&["song.mp3"]));
        }
        _ => panic!("expected completed run"),
    }
    let step = &outcome.state.steps[0];
    assert_eq!(step.fs_info.obj_type, ObjectType::File);
    assert_eq!(step.fs_info.obj_name, "song.mp3");
}

#[test]
fn archiving_an_unindexed_target_fails_before_any_step() {
    let mut ctx = ctx_with(vec![rec(9, 1, &[], "song.mp3", false)]);
    let job = FileArchiverJob {};
    let outcome = run_job(&job, &mut ctx, FileArchiverJobInit { location_id: 1, path_id: 77 });
    assert!(matches!(outcome.result, JobRunResult::Failed(JobError::FilePathNotFound)));
    assert_eq!(outcome.steps_executed, 0);
    assert_eq!(ctx.events, Vec::<JobReportUpdate>::new());
}

#[test]
fn archiver_name_is_stable() {
    let job = FileArchiverJob {};
    assert_eq!(job.name(), "file_archiver");
    let shallow = resumable_jobs::file_identifier::ShallowFileIdentifierJob {};
    assert_eq!(shallow.name(), "shallow_file_identifier");
}

#[test]
fn new_tag_keeps_name_and_color() {
    let tag = Tag::new("holiday".to_string(), "#ff0000".to_string());
    assert_eq!(tag.name, "holiday");
    assert_eq!(tag.color, "#ff0000");
}
