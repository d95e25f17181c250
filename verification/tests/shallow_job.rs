use resumable_jobs::file_identifier::FileIdentifierJobError;
use resumable_jobs::file_identifier::ShallowFileIdentifierJob;
use resumable_jobs::file_identifier::ShallowFileIdentifierJobInit;
use resumable_jobs::job::run_job;
use resumable_jobs::job::JobError;
use resumable_jobs::job::JobReportUpdate;
use resumable_jobs::job::JobRunResult;
use resumable_jobs::job::JobState;
use resumable_jobs::job::Library;
use resumable_jobs::job::StatefulJob;
use resumable_jobs::job::WorkerContext;
use resumable_jobs::location::LocationData;
use resumable_jobs::store::FilePathRecord;
use resumable_jobs::store::Store;

fn strs(xs: &[&str]) -> Vec<String> {
    xs.iter().map(|x| x.to_string()).collect()
}

fn file_rec(id: u64, loc: u64, parent: &[&str], name: &str) -> FilePathRecord {
    FilePathRecord {
        id,
        location_id: loc,
        materialized_path: strs(parent),
        name: name.to_string(),
        is_dir: false,
        object_id: None,
    }
}

fn dir_rec(id: u64, loc: u64, parent: &[&str], name: &str) -> FilePathRecord {
    FilePathRecord {
        id,
        location_id: loc,
        materialized_path: strs(parent),
        name: name.to_string(),
        is_dir: true,
        object_id: None,
    }
}

fn ctx_with(records: Vec<FilePathRecord>) -> WorkerContext {
    WorkerContext { library: Library { db: Store { records } }, events: Vec::new() }
}

fn photos_store(n_files: u64) -> Vec<FilePathRecord> {
    let mut records = vec![dir_rec(1, 1, &[], "photos")];
    for i in 0..n_files {
        records.push(file_rec(2 + i, 1, &["photos"], &format!("f{}", i)));
    }
    records
}

fn photos_init() -> ShallowFileIdentifierJobInit {
    ShallowFileIdentifierJobInit {
        location: LocationData { id: 1, path: strs(&[]) },
        sub_path: strs(&["photos"]),
    }
}

#[test]
fn full_run_of_250_files_in_three_chunks() {
    let mut ctx = ctx_with(photos_store(250));
    let job = ShallowFileIdentifierJob {};
    let mut state = JobState::new(photos_init());
    job.init(&mut ctx, &mut state).unwrap();
    assert_eq!(state.data.as_ref().unwrap().report.total_orphan_paths, 250);
    assert_eq!(state.steps.len(), 3);
    assert_eq!(ctx.events, vec![JobReportUpdate::TaskCount(3)]);

    job.execute_step(&mut ctx, &mut state).unwrap();
    assert_eq!(state.data.as_ref().unwrap().report.total_identified, 100);
    state.step_number += 1;
    job.execute_step(&mut ctx, &mut state).unwrap();
    assert_eq!(state.data.as_ref().unwrap().report.total_identified, 200);
    state.step_number += 1;
    job.execute_step(&mut ctx, &mut state).unwrap();
    state.step_number += 1;

    let report = job.finalize(&mut ctx, &state).unwrap();
    assert_eq!(report.total_orphan_paths, 250);
    assert_eq!(report.total_identified, 250);
    assert_eq!(report.total_failed, 0);
    assert_eq!(
        ctx.events,
        vec![
            JobReportUpdate::TaskCount(3),
            JobReportUpdate::CompletedTaskCount(1),
            JobReportUpdate::CompletedTaskCount(2),
            JobReportUpdate::CompletedTaskCount(3),
        ]
    );
    assert!(ctx
        .library
        .db
        .records
        .iter()
        .filter(|r| !r.is_dir)
        .all(|r| r.object_id.is_some()));
}

#[test]
fn zero_orphans_early_finish_runs_no_step() {
    let mut ctx = ctx_with(vec![dir_rec(1, 1, &[], "photos")]);
    let job = ShallowFileIdentifierJob {};
    let outcome = run_job(&job, &mut ctx, photos_init());
    assert_eq!(outcome.steps_executed, 0);
    match outcome.result {
        JobRunResult::EarlyFinished { name, reason } => {
            assert_eq!(name, "shallow_file_identifier");
            assert_eq!(reason, "Found no orphan file paths to process");
        }
        _ => panic!("expected early finish"),
    }
    let d = outcome.state.data.as_ref().unwrap();
    assert_eq!(d.report.total_orphan_paths, 0);
    assert_eq!(outcome.state.steps.len(), 0);
    assert_eq!(ctx.events, Vec::<JobReportUpdate>::new());
}

#[test]
fn step_count_is_ceiling_of_orphans_over_chunk_size() {
    for (n, want_steps) in [(1u64, 1usize), (99, 1), (100, 1), (101, 2), (250, 3)] {
        let mut ctx = ctx_with(photos_store(n));
        let job = ShallowFileIdentifierJob {};
        let outcome = run_job(&job, &mut ctx, photos_init());
        match outcome.result {
            JobRunResult::Completed(report) => {
                assert_eq!(report.total_identified as u64, n);
            }
            _ => panic!("expected completed run"),
        }
        assert_eq!(outcome.steps_executed, want_steps);
        assert_eq!(ctx.events[0], JobReportUpdate::TaskCount(want_steps));
        for i in 0..want_steps {
            assert_eq!(ctx.events[1 + i], JobReportUpdate::CompletedTaskCount(i + 1));
        }
        assert_eq!(ctx.events.len(), 1 + want_steps);
    }
}

#[test]
fn sub_path_escaping_location_is_refused_before_any_store_write() {
    let mut ctx = ctx_with(photos_store(3));
    let job = ShallowFileIdentifierJob {};
    let mut state = JobState::new(ShallowFileIdentifierJobInit {
        location: LocationData { id: 1, path: strs(&[]) },
        sub_path: strs(&[".."]),
    });
    let r = job.init(&mut ctx, &mut state);
    assert!(matches!(
        r,
        Err(JobError::FileIdentifier(FileIdentifierJobError::SubPathOutsideLocation))
    ));
    assert!(state.data.is_none());
    assert_eq!(state.steps.len(), 0);
    assert!(ctx.library.db.records.iter().all(|rec| rec.object_id.is_none()));
}

#[test]
fn sub_path_naming_a_file_is_refused() {
    let mut records = photos_store(3);
    records.push(file_rec(300, 1, &[], "notes.txt"));
    let mut ctx = ctx_with(records);
    let job = ShallowFileIdentifierJob {};
    let mut state = JobState::new(ShallowFileIdentifierJobInit {
        location: LocationData { id: 1, path: strs(&[]) },
        sub_path: strs(&["notes.txt"]),
    });
    let r = job.init(&mut ctx, &mut state);
    assert!(matches!(
        r,
        Err(JobError::FileIdentifier(FileIdentifierJobError::SubPathNotDirectory))
    ));
    assert!(state.data.is_none());
}

#[test]
fn sub_path_not_indexed_is_refused_with_not_found() {
    let mut ctx = ctx_with(photos_store(3));
    let job = ShallowFileIdentifierJob {};
    let mut state = JobState::new(ShallowFileIdentifierJobInit {
        location: LocationData { id: 1, path: strs(&[]) },
        sub_path: strs(&["missing"]),
    });
    let r = job.init(&mut ctx, &mut state);
    assert!(matches!(
        r,
        Err(JobError::FileIdentifier(FileIdentifierJobError::SubPathNotFound))
    ));
    assert!(state.data.is_none());
    assert_eq!(state.steps.len(), 0);
}

#[test]
fn concurrent_shrink_completes_all_steps_with_fewer_identified() {
    let mut ctx = ctx_with(photos_store(250));
    let job = ShallowFileIdentifierJob {};
    let mut state = JobState::new(photos_init());
    job.init(&mut ctx, &mut state).unwrap();
    assert_eq!(state.data.as_ref().unwrap().report.total_orphan_paths, 250);

    job.execute_step(&mut ctx, &mut state).unwrap();
    state.step_number += 1;
    job.execute_step(&mut ctx, &mut state).unwrap();
    state.step_number += 1;

    // An external process identifies 30 of the remaining candidates.
    let mut stolen = 0;
    for rec in ctx.library.db.records.iter_mut() {
        if !rec.is_dir && rec.object_id.is_none() && stolen < 30 {
            rec.object_id = Some(9999);
            stolen += 1;
        }
    }
    assert_eq!(stolen, 30);

    job.execute_step(&mut ctx, &mut state).unwrap();
    state.step_number += 1;
    let report = job.finalize(&mut ctx, &state).unwrap();
    assert_eq!(report.total_identified, 220);
    assert_eq!(report.total_orphan_paths, 250);
    assert_eq!(
        ctx.events,
        vec![
            JobReportUpdate::TaskCount(3),
            JobReportUpdate::CompletedTaskCount(1),
            JobReportUpdate::CompletedTaskCount(2),
            JobReportUpdate::CompletedTaskCount(3),
        ]
    );
}

#[test]
fn whole_location_scan_with_empty_sub_path() {
    let mut records = Vec::new();
    for i in 0..5u64 {
        records.push(file_rec(1 + i, 1, &[], &format!("f{}", i)));
    }
    let mut ctx = ctx_with(records);
    let job = ShallowFileIdentifierJob {};
    let outcome = run_job(
        &job,
        &mut ctx,
        ShallowFileIdentifierJobInit {
            location: LocationData { id: 1, path: strs(&["mnt", "data"]) },
            sub_path: strs(&[]),
        },
    );
    match outcome.result {
        JobRunResult::Completed(report) => {
            assert_eq!(report.total_orphan_paths, 5);
            assert_eq!(report.total_identified, 5);
            assert_eq!(report.location_path, strs(&["mnt", "data"]));
        }
        _ => panic!("expected completed run"),
    }
    assert_eq!(outcome.steps_executed, 1);
}

#[test]
fn dedup_key_depends_only_on_significant_fields() {
    let a = ShallowFileIdentifierJobInit {
        location: LocationData { id: 7, path: strs(&["mnt", "a"]) },
        sub_path: strs(&["x"]),
    };
    let b = ShallowFileIdentifierJobInit {
        location: LocationData { id: 7, path: strs(&["elsewhere"]) },
        sub_path: strs(&["x"]),
    };
    assert_eq!(a.dedup_key(), b.dedup_key());
    let c = ShallowFileIdentifierJobInit {
        location: LocationData { id: 8, path: strs(&["mnt", "a"]) },
        sub_path: strs(&["x"]),
    };
    assert_ne!(a.dedup_key(), c.dedup_key());
}
