//! The sibling archive job: gathers the target of a context-menu file
//! operation into one step and decides, in `finalize`, whether the target
//! root must be cleaned up.  Writing the archive itself and removing the
//! directory are I/O performed by the embedder; this module holds the
//! decisions.

use crate::job::JobError;
use crate::job::JobReportUpdate;
use crate::job::JobState;
use crate::job::StatefulJob;
use crate::job::WorkerContext;
use crate::location::clone_path;
use crate::store::Store;
use vstd::prelude::*;
use vstd::string::StringExecFns;

verus! {

/// What a file-system entry is.
#[derive(Clone, Copy, PartialEq, Eq, Structural, Debug)]
pub enum ObjectType {
    File,
    Directory,
}

/// The facts about the target of a file operation, read from the store.
pub struct FsInfo {
    pub obj_id: Option<u64>,
    pub obj_name: String,
    pub obj_path: Vec<String>,
    pub obj_type: ObjectType,
}

/// A record of `loc` with identity `id`.
pub open spec fn record_with_id(
    db: Seq<crate::store::FilePathModel>,
    i: int,
    loc: u64,
    id: u64,
) -> bool {
    &&& db[i].location_id == loc
    &&& db[i].id == id
}

/// Looks up the target of a context-menu file operation: the record of the
/// location with the given identity, read into an `FsInfo`.
pub fn context_menu_fs_info(db: &Store, location_id: u64, path_id: u64) -> (r: Option<FsInfo>)
    requires
        db.wf(),
    ensures
        r is Some <==> exists|i: int|
            0 <= i < db@.len() && #[trigger] record_with_id(db@, i, location_id, path_id),
        r matches Some(info) ==> forall|i: int|
            0 <= i < db@.len() && #[trigger] record_with_id(db@, i, location_id, path_id) ==> {
                &&& info.obj_id == Some(path_id)
                &&& info.obj_name@ == db@[i].name
                &&& info.obj_path.deep_view() == db@[i].materialized_path.push(db@[i].name)
                &&& info.obj_type == (if db@[i].is_dir {
                    ObjectType::Directory
                } else {
                    ObjectType::File
                })
            },
{
    let mut i: usize = 0;
    while i < db.records.len()
        invariant
            db.wf(),
            i <= db.records@.len(),
            db@.len() == db.records@.len(),
            forall|j: int| 0 <= j < i ==> !(#[trigger] record_with_id(db@, j, location_id, path_id)),
        decreases db.records.len() - i,
    {
        let rec = &db.records[i];
        proof {
            assert(db@[i as int] == db.records@[i as int]@);
        }
        if rec.location_id == location_id && rec.id == path_id {
            let mut obj_path = clone_path(&rec.materialized_path);
            obj_path.push(rec.name.clone());
            let info = FsInfo {
                obj_id: Some(path_id),
                obj_name: rec.name.clone(),
                obj_path,
                obj_type: if rec.is_dir {
                    ObjectType::Directory
                } else {
                    ObjectType::File
                },
            };
            proof {
                assert(record_with_id(db@, i as int, location_id, path_id));
                assert(info.obj_path.deep_view() =~= db@[i as int].materialized_path.push(
                    db@[i as int].name,
                ));
                assert forall|j: int|
                    0 <= j < db@.len() && #[trigger] record_with_id(db@, j, location_id, path_id)
                        implies j == i as int by {
                    if j != i as int {
                        assert(db@[j].id == db@[i as int].id);
                    }
                }
            }
            return Some(info);
        }
        i = i + 1;
    }
    None
}

/// The archive job.
pub struct FileArchiverJob {}

/// The archiver's configuration: which indexed entry to archive.
#[derive(Clone, Copy, PartialEq, Eq, Structural, Debug)]
pub struct FileArchiverJobInit {
    pub location_id: u64,
    pub path_id: u64,
}

/// The archiver's mutable state.  The archive writer itself is an I/O
/// handle held by the embedder, not part of the decided state.
pub struct FileArchiverJobState {
    pub root_path: Vec<String>,
    pub root_type: ObjectType,
}

/// One archiving step: the entry to add to the archive.
pub struct FileArchiverJobStep {
    pub fs_info: FsInfo,
}

/// The archiver's summary: its configuration, and whether the embedder
/// must remove the target root after archiving.
pub struct FileArchiverOutput {
    pub init: FileArchiverJobInit,
    pub remove_root: bool,
    pub root_path: Vec<String>,
}

/// The engine-held lifecycle state of an archive run.
pub type ArchiveJobState = JobState<FileArchiverJobInit, FileArchiverJobState, FileArchiverJobStep>;

impl StatefulJob for FileArchiverJob {
    type Init = FileArchiverJobInit;

    type Data = FileArchiverJobState;

    type Step = FileArchiverJobStep;

    type Output = FileArchiverOutput;

    open spec fn name_spec() -> Seq<char> {
        "file_archiver"@
    }

    open spec fn init_req(ctx: WorkerContext, state: ArchiveJobState) -> bool {
        &&& ctx.library.db.wf()
        &&& state.data is None
        &&& state.steps@.len() == 0
        &&& state.step_number == 0
    }

    open spec fn init_ens(
        pre_ctx: WorkerContext,
        pre: ArchiveJobState,
        post_ctx: WorkerContext,
        post: ArchiveJobState,
        r: Result<(), JobError>,
    ) -> bool {
        let db = pre_ctx.library.db@;
        &&& Self::init_req(pre_ctx, pre)
        &&& post_ctx.library == pre_ctx.library
        &&& post.init == pre.init
        &&& post.step_number == 0
        &&& if exists|i: int|
            0 <= i < db.len() && #[trigger] record_with_id(db, i, pre.init.location_id, pre.init.path_id) {
            &&& r is Ok
            &&& post.data matches Some(d) && post.steps@.len() == 1 && forall|i: int|
                0 <= i < db.len() && #[trigger] record_with_id(
                    db,
                    i,
                    pre.init.location_id,
                    pre.init.path_id,
                ) ==> {
                    &&& d.root_path.deep_view() == db[i].materialized_path.push(db[i].name)
                    &&& d.root_type == (if db[i].is_dir {
                        ObjectType::Directory
                    } else {
                        ObjectType::File
                    })
                    &&& post.steps@[0].fs_info.obj_path.deep_view() == db[i].materialized_path.push(
                        db[i].name,
                    )
                    &&& post.steps@[0].fs_info.obj_type == d.root_type
                }
            &&& post_ctx.events@ == pre_ctx.events@ + seq![JobReportUpdate::TaskCount(1usize)]
        } else {
            &&& r == Err::<(), JobError>(JobError::FilePathNotFound)
            &&& post.data is None
            &&& post.steps@.len() == 0
            &&& post_ctx.events@ == pre_ctx.events@
        }
    }

    open spec fn step_req(ctx: WorkerContext, state: ArchiveJobState) -> bool {
        &&& state.data is Some
        &&& state.steps@.len() >= 1
        &&& state.step_number < usize::MAX
    }

    open spec fn step_ens(
        pre_ctx: WorkerContext,
        pre: ArchiveJobState,
        post_ctx: WorkerContext,
        post: ArchiveJobState,
        r: Result<(), JobError>,
    ) -> bool {
        &&& Self::step_req(pre_ctx, pre)
        &&& r is Ok
        &&& post == pre
        &&& pre.steps@.len() <= usize::MAX
        &&& post_ctx.library == pre_ctx.library
        &&& post_ctx.events@ == pre_ctx.events@ + seq![
            JobReportUpdate::CompletedTaskCount((pre.step_number + 1) as usize),
        ]
    }

    open spec fn finalize_req(ctx: WorkerContext, state: ArchiveJobState) -> bool {
        state.data is Some
    }

    open spec fn finalize_ens(
        pre_ctx: WorkerContext,
        state: ArchiveJobState,
        post_ctx: WorkerContext,
        r: Result<FileArchiverOutput, JobError>,
    ) -> bool {
        &&& post_ctx == pre_ctx
        &&& state.data matches Some(d) && r matches Ok(out) && {
            &&& out.init == state.init
            &&& out.remove_root == (d.root_type is Directory)
            &&& out.root_path.deep_view() == d.root_path.deep_view()
        }
    }

    fn name(&self) -> (r: String) {
        String::from_str("file_archiver")
    }

    fn init(&self, ctx: &mut WorkerContext, state: &mut ArchiveJobState) -> (r: Result<
        (),
        JobError,
    >) {
        let info = match context_menu_fs_info(
            &ctx.library.db,
            state.init.location_id,
            state.init.path_id,
        ) {
            Some(info) => info,
            None => {
                return Err(JobError::FilePathNotFound);
            },
        };
        let root_path = clone_path(&info.obj_path);
        proof {
            assert(root_path.deep_view() =~= info.obj_path.deep_view());
        }
        state.data = Some(FileArchiverJobState { root_path, root_type: info.obj_type });
        let mut steps: Vec<FileArchiverJobStep> = Vec::new();
        steps.push(FileArchiverJobStep { fs_info: info });
        state.steps = steps;
        let mut updates: Vec<JobReportUpdate> = Vec::new();
        updates.push(JobReportUpdate::TaskCount(1));
        proof {
            assert(updates@ =~= seq![JobReportUpdate::TaskCount(1usize)]);
        }
        ctx.progress(updates);
        Ok(())
    }

    fn execute_step(&self, ctx: &mut WorkerContext, state: &mut ArchiveJobState) -> (r: Result<
        (),
        JobError,
    >) {
        proof {
            assert(state.steps@.len() == state.steps.len());
        }
        let mut updates: Vec<JobReportUpdate> = Vec::new();
        updates.push(JobReportUpdate::CompletedTaskCount(state.step_number + 1));
        proof {
            assert(updates@ =~= seq![
                JobReportUpdate::CompletedTaskCount((state.step_number + 1) as usize),
            ]);
        }
        ctx.progress(updates);
        Ok(())
    }

    fn finalize(&self, ctx: &mut WorkerContext, state: &ArchiveJobState) -> (r: Result<
        FileArchiverOutput,
        JobError,
    >) {
        match &state.data {
            Some(d) => {
                let root_path = clone_path(&d.root_path);
                proof {
                    assert(root_path.deep_view() =~= d.root_path.deep_view());
                }
                Ok(
                    FileArchiverOutput {
                        init: FileArchiverJobInit {
                            location_id: state.init.location_id,
                            path_id: state.init.path_id,
                        },
                        remove_root: matches!(d.root_type, ObjectType::Directory),
                        root_path,
                    },
                )
            },
            None => vstd::pervasive::unreached(),
        }
    }

    proof fn init_enables(
        pre_ctx: WorkerContext,
        pre: ArchiveJobState,
        post_ctx: WorkerContext,
        post: ArchiveJobState,
    ) {
    }

    proof fn step_enables(
        pre_ctx: WorkerContext,
        pre: ArchiveJobState,
        post_ctx: WorkerContext,
        post: ArchiveJobState,
    ) {
    }
}

} // verus!
