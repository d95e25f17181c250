use resumable_jobs::file_identifier::ShallowFileIdentifierJob;
use resumable_jobs::file_identifier::ShallowFileIdentifierJobInit;
use resumable_jobs::file_identifier::ShallowFileIdentifierJobState;
use resumable_jobs::job::JobState;
use resumable_jobs::job::Library;
use resumable_jobs::job::StatefulJob;
use resumable_jobs::job::WorkerContext;
use resumable_jobs::location::IsolatedFilePathData;
use resumable_jobs::location::LocationData;
use resumable_jobs::store::FilePathRecord;
use resumable_jobs::store::Store;

fn strs(xs: &[&str]) -> Vec<String> {
    xs.iter().map(|x| x.to_string()).collect()
}

fn file_rec(id: u64, loc: u64, parent: &[&str], name: &str) -> FilePathRecord {
    FilePathRecord {
        id,
        location_id: loc,
        materialized_path: strs(parent),
        name: name.to_string(),
        is_dir: false,
        object_id: None,
    }
}

fn dir_rec(id: u64, loc: u64, parent: &[&str], name: &str) -> FilePathRecord {
    FilePathRecord {
        id,
        location_id: loc,
        materialized_path: strs(parent),
        name: name.to_string(),
        is_dir: true,
        object_id: None,
    }
}

fn store_records() -> Vec<FilePathRecord> {
    let mut records = vec![dir_rec(1, 1, &[], "photos")];
    for i in 0..230u64 {
        records.push(file_rec(2 + i, 1, &["photos"], &format!("f{}", i)));
    }
    records
}

fn init_config() -> ShallowFileIdentifierJobInit {
    ShallowFileIdentifierJobInit {
        location: LocationData { id: 1, path: strs(&[]) },
        sub_path: strs(&["photos"]),
    }
}

fn linked_ids(ctx: &WorkerContext) -> Vec<u64> {
    ctx.library
        .db
        .records
        .iter()
        .filter(|r| r.object_id.is_some())
        .map(|r| r.id)
        .collect()
}

#[test]
fn resuming_after_a_crash_reproduces_the_uninterrupted_run() {
    let job = ShallowFileIdentifierJob {};

    // Uninterrupted run.
    let mut ctx_a = WorkerContext {
        library: Library { db: Store { records: store_records() } },
        events: Vec::new(),
    };
    let mut state_a = JobState::new(init_config());
    job.init(&mut ctx_a, &mut state_a).unwrap();
    for _ in 0..3 {
        job.execute_step(&mut ctx_a, &mut state_a).unwrap();
        state_a.step_number += 1;
    }
    let report_a = job.finalize(&mut ctx_a, &state_a).unwrap();

    // Interrupted run: one step, then a restart from the persisted state.
    let mut ctx_b = WorkerContext {
        library: Library { db: Store { records: store_records() } },
        events: Vec::new(),
    };
    let mut state_b = JobState::new(init_config());
    job.init(&mut ctx_b, &mut state_b).unwrap();
    job.execute_step(&mut ctx_b, &mut state_b).unwrap();
    state_b.step_number += 1;

    // Persist what the engine serializes: cursor, report, scope, position.
    let d = state_b.data.as_ref().unwrap();
    let persisted_cursor = d.cursor;
    let persisted_total = d.report.total_orphan_paths;
    let persisted_identified = d.report.total_identified;
    let persisted_scope = d.sub_iso_file_path.path.clone();
    let persisted_step = state_b.step_number;
    let step_total = state_b.steps.len();

    // The process restarts: state is rebuilt purely from persisted values
    // (the store keeps the progress of the completed step).
    let mut ctx_c = WorkerContext {
        library: Library { db: Store { records: ctx_b.library.db.records } },
        events: Vec::new(),
    };
    let mut state_c: JobState<ShallowFileIdentifierJobInit, ShallowFileIdentifierJobState, ()> =
        JobState {
            init: init_config(),
            data: Some(ShallowFileIdentifierJobState {
                cursor: persisted_cursor,
                report: resumable_jobs::file_identifier::FileIdentifierReport {
                    location_path: strs(&[]),
                    total_orphan_paths: persisted_total,
                    total_identified: persisted_identified,
                    total_failed: 0,
                },
                sub_iso_file_path: IsolatedFilePathData {
                    location_id: 1,
                    path: persisted_scope,
                    is_dir: true,
                },
            }),
            steps: vec![(); step_total],
            step_number: persisted_step,
        };
    while state_c.step_number < state_c.steps.len() {
        job.execute_step(&mut ctx_c, &mut state_c).unwrap();
        state_c.step_number += 1;
    }
    let report_c = job.finalize(&mut ctx_c, &state_c).unwrap();

    assert_eq!(report_c.total_identified, report_a.total_identified);
    assert_eq!(report_c.total_orphan_paths, report_a.total_orphan_paths);
    assert_eq!(report_c.total_failed, report_a.total_failed);
    assert_eq!(linked_ids(&ctx_c), linked_ids(&ctx_a));
}

#[test]
fn cursor_never_decreases_and_batches_start_at_the_cursor() {
    let job = ShallowFileIdentifierJob {};
    let mut ctx = WorkerContext {
        library: Library { db: Store { records: store_records() } },
        events: Vec::new(),
    };
    let mut state = JobState::new(init_config());
    job.init(&mut ctx, &mut state).unwrap();
    let mut last_cursor = state.data.as_ref().unwrap().cursor;
    assert_eq!(last_cursor, 2);
    let mut prev_linked: Vec<u64> = Vec::new();
    for _ in 0..3 {
        let before = last_cursor;
        job.execute_step(&mut ctx, &mut state).unwrap();
        state.step_number += 1;
        let after = state.data.as_ref().unwrap().cursor;
        assert!(after >= before);
        // Every record this step linked has an identity at or past the
        // cursor the previous step left behind, and below the new cursor.
        let now_linked = linked_ids(&ctx);
        for id in now_linked.iter() {
            if !prev_linked.contains(id) {
                assert!(*id >= before);
                assert!(*id < after);
            }
        }
        prev_linked = now_linked;
        last_cursor = after;
    }
    // 230 files with identities 2..=231: the final cursor is one past the
    // greatest identity processed.
    assert_eq!(last_cursor, 232);
}

#[test]
fn no_entry_is_processed_twice_across_a_resume() {
    let job = ShallowFileIdentifierJob {};
    let mut ctx = WorkerContext {
        library: Library { db: Store { records: store_records() } },
        events: Vec::new(),
    };
    let mut state = JobState::new(init_config());
    job.init(&mut ctx, &mut state).unwrap();
    job.execute_step(&mut ctx, &mut state).unwrap();
    state.step_number += 1;
    let cursor_at_resume = state.data.as_ref().unwrap().cursor;
    // Mark the already-linked records so a second linking would be seen.
    let first_batch: Vec<u64> = linked_ids(&ctx);
    assert_eq!(first_batch.len(), 100);
    assert!(first_batch.iter().all(|id| *id < cursor_at_resume));
    job.execute_step(&mut ctx, &mut state).unwrap();
    state.step_number += 1;
    let second_batch: Vec<u64> = linked_ids(&ctx);
    // The second step only added entries at or past the resume cursor.
    for id in second_batch.iter() {
        if !first_batch.contains(id) {
            assert!(*id >= cursor_at_resume);
        }
    }
    assert_eq!(second_batch.len(), 200);
}
