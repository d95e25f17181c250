//! The shallow file-identifier job: a cursor-based chunked scan that finds
//! orphan file paths (records without a linked content identity) directly
//! under a scan scope and drives them through identification in bounded
//! batches.

use crate::job::JobError;
use crate::job::JobReportUpdate;
use crate::job::JobState;
use crate::job::StatefulJob;
use crate::job::WorkerContext;
use crate::location::clone_path;
use crate::location::ensure_sub_path_is_in_location;
use crate::location::path_eq;
use crate::location::sub_path_is_normal;
use crate::location::IsolatedFilePathData;
use crate::location::LocationData;
use crate::store::ids_strictly_increasing;
use crate::store::lemma_filter_all;
use crate::store::lemma_filter_eq_pointwise;
use crate::store::lemma_filter_keeps_order;
use crate::store::lemma_filter_none;
use crate::store::lemma_filter_push;
use crate::store::lemma_filter_split;
use crate::store::path_record_matches;
use crate::store::FilePathModel;
use crate::store::FilePathRecord;
use crate::store::Store;
use vstd::arithmetic::div_mod::lemma_fundamental_div_mod;
use vstd::arithmetic::div_mod::lemma_fundamental_div_mod_converse;
use vstd::prelude::*;
use vstd::seq_lib::*;
use vstd::string::StringExecFns;

verus! {

/// Fixed maximum number of entries fetched per step.
pub const CHUNK_SIZE: usize = 100;

/// A configuration error of the shallow file-identifier job: the sub-path
/// escapes the location root, names a file rather than a directory, or is
/// not indexed.
#[derive(Clone, Copy, PartialEq, Eq, Structural, Debug)]
pub enum FileIdentifierJobError {
    SubPathOutsideLocation,
    SubPathNotDirectory,
    SubPathNotFound,
}

/// The running report of one identification run.
pub struct FileIdentifierReport {
    pub location_path: Vec<String>,
    pub total_orphan_paths: usize,
    pub total_identified: usize,
    pub total_failed: usize,
}

impl FileIdentifierReport {
    /// Copies the report.
    pub fn duplicate(&self) -> (r: Self)
        ensures
            r.location_path.deep_view() == self.location_path.deep_view(),
            r.total_orphan_paths == self.total_orphan_paths,
            r.total_identified == self.total_identified,
            r.total_failed == self.total_failed,
    {
        let lp = clone_path(&self.location_path);
        proof {
            assert(lp.deep_view() =~= self.location_path.deep_view());
        }
        FileIdentifierReport {
            location_path: lp,
            total_orphan_paths: self.total_orphan_paths,
            total_identified: self.total_identified,
            total_failed: self.total_failed,
        }
    }
}

/// Mathematical model of the orphan predicate: which records a fetch or a
/// count considers.
#[verifier::ext_equal]
pub struct OrphanFilterModel {
    pub location_id: u64,
    pub materialized_path: Seq<Seq<char>>,
    pub cursor: Option<u64>,
}

/// The conjunction the store queries filter by: no linked content
/// identity, not a directory, under this location, standing directly in
/// the scope directory, and, when a cursor is given, identity at or past
/// it.
pub open spec fn orphan_matches(f: OrphanFilterModel, m: FilePathModel) -> bool {
    &&& m.object_id is None
    &&& !m.is_dir
    &&& m.location_id == f.location_id
    &&& m.materialized_path == f.materialized_path
    &&& match f.cursor {
        Some(c) => m.id >= c,
        None => true,
    }
}

/// The orphan predicate as a function value.
pub open spec fn orphan_pred(f: OrphanFilterModel) -> spec_fn(FilePathModel) -> bool {
    |m: FilePathModel| orphan_matches(f, m)
}

/// The matching records, in store (identity) order.
pub open spec fn orphans(db: Seq<FilePathModel>, f: OrphanFilterModel) -> Seq<FilePathModel> {
    db.filter(orphan_pred(f))
}

/// The orphan predicate for scope `scope` of location `loc`, from `cursor`
/// on.
pub open spec fn scope_filter(loc: u64, cursor: Option<u64>, scope: Seq<Seq<char>>) -> OrphanFilterModel {
    OrphanFilterModel { location_id: loc, materialized_path: scope, cursor }
}

/// The executable form of the orphan predicate handed to the store.
pub struct OrphanFilter {
    pub location_id: u64,
    pub materialized_path: Vec<String>,
    pub cursor: Option<u64>,
}

impl View for OrphanFilter {
    type V = OrphanFilterModel;

    open spec fn view(&self) -> OrphanFilterModel {
        OrphanFilterModel {
            location_id: self.location_id,
            materialized_path: self.materialized_path.deep_view(),
            cursor: self.cursor,
        }
    }
}

/// Builds the filter describing "unidentified entries directly under this
/// scope, at or after this cursor".  The scope must denote a directory.
pub fn orphan_path_filters(
    location_id: u64,
    file_path_id: Option<u64>,
    sub_iso_file_path: &IsolatedFilePathData,
) -> (f: OrphanFilter)
    requires
        sub_iso_file_path.is_dir,
    ensures
        f@ == scope_filter(location_id, file_path_id, sub_iso_file_path.path.deep_view()),
{
    let children = sub_iso_file_path.materialized_path_for_children();
    match children {
        Some(p) => {
            let f = OrphanFilter { location_id, materialized_path: p, cursor: file_path_id };
            proof {
                assert(f@ =~= scope_filter(
                    location_id,
                    file_path_id,
                    sub_iso_file_path.path.deep_view(),
                ));
            }
            f
        },
        None => vstd::pervasive::unreached(),
    }
}

/// Decides the orphan predicate for one record.
pub fn record_matches_filter(f: &OrphanFilter, rec: &FilePathRecord) -> (r: bool)
    ensures
        r == orphan_matches(f@, rec@),
{
    if rec.object_id.is_some() {
        return false;
    }
    if rec.is_dir {
        return false;
    }
    if rec.location_id != f.location_id {
        return false;
    }
    if !path_eq(&rec.materialized_path, &f.materialized_path) {
        return false;
    }
    match f.cursor {
        Some(c) => rec.id >= c,
        None => true,
    }
}

/// Counts the orphan candidates under the scope: the store's
/// count-matching query.
pub fn count_orphan_file_paths(
    db: &Store,
    location_id: u64,
    sub_iso_file_path: &IsolatedFilePathData,
) -> (count: usize)
    requires
        sub_iso_file_path.is_dir,
    ensures
        count == orphans(
            db@,
            scope_filter(location_id, None, sub_iso_file_path.path.deep_view()),
        ).len(),
{
    let filter = orphan_path_filters(location_id, None, sub_iso_file_path);
    let ghost p = orphan_pred(filter@);
    let mut count: usize = 0;
    let mut i: usize = 0;
    proof {
        assert(db@.take(0) =~= Seq::<FilePathModel>::empty());
        assert(Seq::<FilePathModel>::empty().filter(p) =~= Seq::<FilePathModel>::empty()) by {
            reveal(Seq::filter);
        }
    }
    while i < db.records.len()
        invariant
            i <= db.records@.len(),
            db@.len() == db.records@.len(),
            count == db@.take(i as int).filter(p).len(),
            count <= i,
            p == orphan_pred(filter@),
            filter@ == scope_filter(location_id, None, sub_iso_file_path.path.deep_view()),
        decreases db.records.len() - i,
    {
        proof {
            assert(db@[i as int] == db.records@[i as int]@);
            assert(db@.take(i + 1) =~= db@.take(i as int).push(db@[i as int]));
            lemma_filter_push(db@.take(i as int), db@[i as int], p);
        }
        if record_matches_filter(&filter, &db.records[i]) {
            count = count + 1;
        }
        i = i + 1;
    }
    proof {
        assert(db@.take(db@.len() as int) =~= db@);
    }
    count
}

/// Finds the smallest matching identity: the store's find-first query,
/// ordered by identity ascending, selecting the identity.
pub fn find_first_orphan(db: &Store, filter: &OrphanFilter) -> (r: Option<u64>)
    ensures
        orphans(db@, filter@).len() == 0 ==> r is None,
        orphans(db@, filter@).len() > 0 ==> r == Some(orphans(db@, filter@).first().id),
{
    let ghost p = orphan_pred(filter@);
    let mut i: usize = 0;
    proof {
        assert(db@.take(0) =~= Seq::<FilePathModel>::empty());
        assert(Seq::<FilePathModel>::empty().filter(p) =~= Seq::<FilePathModel>::empty()) by {
            reveal(Seq::filter);
        }
    }
    while i < db.records.len()
        invariant
            i <= db.records@.len(),
            db@.len() == db.records@.len(),
            db@.take(i as int).filter(p) =~= Seq::<FilePathModel>::empty(),
            p == orphan_pred(filter@),
        decreases db.records.len() - i,
    {
        proof {
            assert(db@[i as int] == db.records@[i as int]@);
            assert(db@.take(i + 1) =~= db@.take(i as int).push(db@[i as int]));
            lemma_filter_push(db@.take(i as int), db@[i as int], p);
        }
        if record_matches_filter(filter, &db.records[i]) {
            proof {
                assert(db@ =~= db@.take(i + 1) + db@.skip(i + 1));
                Seq::filter_distributes_over_add(db@.take(i + 1), db@.skip(i + 1), p);
                assert(orphans(db@, filter@).first() == db@[i as int]);
            }
            return Some(db.records[i].id);
        }
        i = i + 1;
    }
    proof {
        assert(db@.take(db@.len() as int) =~= db@);
    }
    None
}

/// A cursor placed on the smallest matching identity fetches the same
/// candidates as no cursor at all.
pub proof fn lemma_orphans_from_first(db: Seq<FilePathModel>, f: OrphanFilterModel)
    requires
        ids_strictly_increasing(db),
        f.cursor is None,
        orphans(db, f).len() > 0,
    ensures
        orphans(
            db,
            OrphanFilterModel { cursor: Some(orphans(db, f).first().id), ..f },
        ) == orphans(db, f),
{
    let fseq = orphans(db, f);
    let c = fseq.first().id;
    let f2 = OrphanFilterModel { cursor: Some(c), ..f };
    let geq = |m: FilePathModel| m.id >= c;
    lemma_filter_split(db, orphan_pred(f2), orphan_pred(f), geq);
    lemma_filter_keeps_order(db, orphan_pred(f));
    assert forall|i: int| 0 <= i < fseq.len() implies geq(#[trigger] fseq[i]) by {
        if i > 0 {
            assert(fseq.first().id < fseq[i].id);
        }
    }
    lemma_filter_all(fseq, geq);
}

/// After the fetched batch is linked and the cursor advanced one past its
/// greatest identity, the remaining candidates are exactly the matching
/// records after the batch: no processed entry is ever fetched again.
pub proof fn lemma_orphans_after_link(
    db: Seq<FilePathModel>,
    db2: Seq<FilePathModel>,
    f: OrphanFilterModel,
    k: int,
    c2: u64,
)
    requires
        ids_strictly_increasing(db),
        db2.len() == db.len(),
        f.cursor matches Some(c) && c <= orphans(db, f)[k - 1].id,
        0 < k <= orphans(db, f).len(),
        c2 == orphans(db, f)[k - 1].id + 1,
        forall|j: int| 0 <= j < db.len() ==> (#[trigger] db2[j]).id == db[j].id,
        forall|j: int| 0 <= j < db.len() && db[j].id >= c2 ==> #[trigger] db2[j] == db[j],
    ensures
        orphans(db2, OrphanFilterModel { cursor: Some(c2), ..f }) == orphans(db, f).skip(k),
{
    let fseq = orphans(db, f);
    let f2 = OrphanFilterModel { cursor: Some(c2), ..f };
    let geq = |m: FilePathModel| m.id >= c2;
    // Linking touched no record at or past the new cursor, so the fetch
    // from the new cursor reads the same records before and after.
    lemma_filter_eq_pointwise(db2, db, orphan_pred(f2), orphan_pred(f2));
    // The new filter is the old one plus the new cursor bound.
    lemma_filter_split(db, orphan_pred(f2), orphan_pred(f), geq);
    // On the matching records, the new cursor cuts off exactly the batch.
    lemma_filter_keeps_order(db, orphan_pred(f));
    assert(fseq =~= fseq.take(k) + fseq.skip(k));
    Seq::filter_distributes_over_add(fseq.take(k), fseq.skip(k), geq);
    assert forall|i: int| 0 <= i < fseq.take(k).len() implies !geq(#[trigger] fseq.take(k)[i]) by {
        assert(fseq.take(k)[i] == fseq[i]);
        if i < k - 1 {
            assert(fseq[i].id < fseq[k - 1].id);
        }
    }
    lemma_filter_none(fseq.take(k), geq);
    assert forall|i: int| 0 <= i < fseq.skip(k).len() implies geq(#[trigger] fseq.skip(k)[i]) by {
        assert(fseq.skip(k)[i] == fseq[k + i]);
        if k + i > k - 1 {
            assert(fseq[k - 1].id < fseq[k + i].id);
        }
    }
    lemma_filter_all(fseq.skip(k), geq);
    assert(fseq.filter(geq) =~= fseq.skip(k));
}

/// The identification collaborator: links every entry of the fetched batch
/// to a content identity (modelled as the entry's own identity), folds the
/// outcome into the report, advances the cursor one past the greatest
/// identity processed, and reports the step as completed.
pub fn process_identifier_file_paths(
    file_paths: &Vec<FilePathRecord>,
    step_number: usize,
    cursor: &mut u64,
    report: &mut FileIdentifierReport,
    ctx: &mut WorkerContext,
) -> (r: Result<(), JobError>)
    requires
        forall|i: int|
            0 <= i < file_paths@.len() ==> (#[trigger] file_paths@[i]@).id < u64::MAX,
        ids_strictly_increasing(file_paths@.map_values(|rec: FilePathRecord| rec@)),
        old(report).total_identified + file_paths@.len() <= usize::MAX,
        step_number < usize::MAX,
    ensures
        r is Ok,
        ({
            let b = file_paths@.map_values(|rec: FilePathRecord| rec@);
            let db0 = old(ctx).library.db@;
            let db1 = final(ctx).library.db@;
            &&& *final(cursor) == (if b.len() == 0 {
                *old(cursor) as int
            } else {
                b.last().id + 1
            })
            &&& final(report).total_identified == old(report).total_identified + b.len()
            &&& final(report).location_path == old(report).location_path
            &&& final(report).total_orphan_paths == old(report).total_orphan_paths
            &&& final(report).total_failed == old(report).total_failed
            &&& final(ctx).events@ == old(ctx).events@ + seq![
                JobReportUpdate::CompletedTaskCount((step_number + 1) as usize),
            ]
            &&& db1.len() == db0.len()
            &&& forall|j: int| 0 <= j < db0.len() ==> (#[trigger] db1[j]).id == db0[j].id
            &&& forall|j: int|
                0 <= j < db0.len() && (exists|m: int|
                    0 <= m < b.len() && (#[trigger] b[m]).id == db0[j].id) ==> #[trigger] db1[j]
                    == (FilePathModel { object_id: Some(db0[j].id), ..db0[j] })
            &&& forall|j: int|
                0 <= j < db0.len() && !(exists|m: int|
                    0 <= m < b.len() && (#[trigger] b[m]).id == db0[j].id) ==> #[trigger] db1[j]
                    == db0[j]
        }),
{
    let ghost b = file_paths@.map_values(|rec: FilePathRecord| rec@);
    let ghost db0 = ctx.library.db@;
    let mut n: usize = 0;
    while n < file_paths.len()
        invariant
            n <= file_paths@.len(),
            b == file_paths@.map_values(|rec: FilePathRecord| rec@),
            ids_strictly_increasing(b),
            db0 == old(ctx).library.db@,
            ctx.library.db@.len() == db0.len(),
            ctx.events@ == old(ctx).events@,
            forall|j: int| 0 <= j < db0.len() ==> (#[trigger] ctx.library.db@[j]).id == db0[j].id,
            forall|j: int|
                0 <= j < db0.len() && (exists|m: int|
                    0 <= m < n && (#[trigger] b[m]).id == db0[j].id)
                    ==> #[trigger] ctx.library.db@[j] == (FilePathModel {
                    object_id: Some(db0[j].id),
                    ..db0[j]
                }),
            forall|j: int|
                0 <= j < db0.len() && !(exists|m: int|
                    0 <= m < n && (#[trigger] b[m]).id == db0[j].id)
                    ==> #[trigger] ctx.library.db@[j] == db0[j],
        decreases file_paths.len() - n,
    {
        proof {
            assert(b[n as int] == file_paths@[n as int]@);
        }
        let ghost dbpre = ctx.library.db@;
        let id = file_paths[n].id;
        ctx.library.db.link_object(id, id);
        proof {
            let dbcur = ctx.library.db@;
            assert forall|j: int|
                0 <= j < db0.len() && (exists|m: int|
                    0 <= m < n + 1 && (#[trigger] b[m]).id == db0[j].id) implies dbcur[j]
                == (FilePathModel { object_id: Some(db0[j].id), ..db0[j] }) by {
                let m = choose|m: int| 0 <= m < n + 1 && (#[trigger] b[m]).id == db0[j].id;
                if m < n {
                    assert(b[m].id < b[n as int].id);
                    assert(dbpre[j] == (FilePathModel { object_id: Some(db0[j].id), ..db0[j] }));
                    assert(dbpre[j].id != id);
                } else {
                    assert(b[n as int].id == db0[j].id);
                    assert forall|m2: int| 0 <= m2 < n implies (#[trigger] b[m2]).id != db0[j].id by {
                        assert(b[m2].id < b[n as int].id);
                    }
                    assert(dbpre[j] == db0[j]);
                    assert(dbpre[j].id == id);
                }
            }
            assert forall|j: int|
                0 <= j < db0.len() && !(exists|m: int|
                    0 <= m < n + 1 && (#[trigger] b[m]).id == db0[j].id) implies dbcur[j] == db0[
                j] by {
                assert(!(exists|m: int| 0 <= m < n && (#[trigger] b[m]).id == db0[j].id));
                assert(dbpre[j] == db0[j]);
                assert(b[n as int].id != db0[j].id);
                assert(dbpre[j].id != id);
            }
        }
        n = n + 1;
    }
    if file_paths.len() > 0 {
        proof {
            assert(b.last() == file_paths@[file_paths@.len() - 1]@);
            assert(b.last().id < u64::MAX);
        }
        *cursor = file_paths[file_paths.len() - 1].id + 1;
    }
    report.total_identified = report.total_identified + file_paths.len();
    let mut updates: Vec<JobReportUpdate> = Vec::new();
    updates.push(JobReportUpdate::CompletedTaskCount(step_number + 1));
    proof {
        assert(updates@ =~= seq![JobReportUpdate::CompletedTaskCount((step_number + 1) as usize)]);
    }
    ctx.progress(updates);
    Ok(())
}

/// Fetches up to `CHUNK_SIZE` orphan candidates at or past the cursor, in
/// identity order: the store's find-many query with a limit.
pub fn get_orphan_file_paths(
    db: &Store,
    location_id: u64,
    file_path_id_cursor: u64,
    sub_iso_file_path: &IsolatedFilePathData,
) -> (r: Vec<FilePathRecord>)
    requires
        sub_iso_file_path.is_dir,
    ensures
        ({
            let f = scope_filter(
                location_id,
                Some(file_path_id_cursor),
                sub_iso_file_path.path.deep_view(),
            );
            let n = orphans(db@, f).len();
            let k = if n <= CHUNK_SIZE { n as int } else { CHUNK_SIZE as int };
            &&& r@.map_values(|rec: FilePathRecord| rec@) == orphans(db@, f).take(k)
            &&& r@.len() == k
        }),
{
    let filter = orphan_path_filters(location_id, Some(file_path_id_cursor), sub_iso_file_path);
    let ghost p = orphan_pred(filter@);
    let mut out: Vec<FilePathRecord> = Vec::new();
    let mut i: usize = 0;
    proof {
        assert(db@.take(0) =~= Seq::<FilePathModel>::empty());
        assert(Seq::<FilePathModel>::empty().filter(p) =~= Seq::<FilePathModel>::empty()) by {
            reveal(Seq::filter);
        }
        assert(out@.map_values(|rec: FilePathRecord| rec@) =~= Seq::<FilePathModel>::empty());
    }
    while i < db.records.len() && out.len() < CHUNK_SIZE
        invariant
            i <= db.records@.len(),
            db@.len() == db.records@.len(),
            out@.map_values(|rec: FilePathRecord| rec@) == db@.take(i as int).filter(p),
            out@.len() <= CHUNK_SIZE,
            p == orphan_pred(filter@),
            filter@ == scope_filter(
                location_id,
                Some(file_path_id_cursor),
                sub_iso_file_path.path.deep_view(),
            ),
        decreases db.records.len() - i,
    {
        proof {
            assert(db@[i as int] == db.records@[i as int]@);
            assert(db@.take(i + 1) =~= db@.take(i as int).push(db@[i as int]));
            lemma_filter_push(db@.take(i as int), db@[i as int], p);
        }
        if record_matches_filter(&filter, &db.records[i]) {
            let rec = db.records[i].duplicate();
            out.push(rec);
            proof {
                assert(out@.map_values(|rec: FilePathRecord| rec@) =~= db@.take(i + 1).filter(p));
            }
        } else {
            proof {
                assert(out@.map_values(|rec: FilePathRecord| rec@) =~= db@.take(i + 1).filter(p));
            }
        }
        i = i + 1;
    }
    proof {
        let full = orphans(db@, filter@);
        let part = db@.take(i as int).filter(p);
        assert(db@ =~= db@.take(i as int) + db@.skip(i as int));
        Seq::filter_distributes_over_add(db@.take(i as int), db@.skip(i as int), p);
        if i == db.records@.len() {
            assert(db@.take(i as int) =~= db@);
            assert(part == full);
            assert(full.take(part.len() as int) =~= full);
        } else {
            assert(out@.len() == CHUNK_SIZE);
            assert(full =~= part + db@.skip(i as int).filter(p));
            assert(full.take(CHUNK_SIZE as int) =~= part);
        }
    }
    out
}

/// Integer ceiling division.
pub open spec fn ceil_div(n: int, k: int) -> int {
    (n + k - 1) / k
}

/// The ceiling division computed from quotient and remainder, and its
/// bounds.
pub proof fn lemma_ceil_div(n: int, k: int)
    requires
        0 <= n,
        0 < k,
    ensures
        ceil_div(n, k) == n / k + (if n % k == 0 {
            0int
        } else {
            1int
        }),
        n > 0 ==> 1 <= ceil_div(n, k) <= n,
        n == 0 ==> ceil_div(n, k) == 0,
{
    let q = n / k;
    let r = n % k;
    lemma_fundamental_div_mod(n, k);
    assert(q * k == k * q && (q + 1) * k == k * q + k) by (nonlinear_arith);
    assert(0 <= q && 0 <= r < k) by (nonlinear_arith)
        requires
            0 <= n,
            0 < k,
            q == n / k,
            r == n % k,
    ;
    assert(q <= q * k) by (nonlinear_arith)
        requires
            0 <= q,
            1 <= k,
    ;
    if r == 0 {
        lemma_fundamental_div_mod_converse(n + k - 1, k, q, k - 1);
        if n > 0 {
            assert(q >= 1) by (nonlinear_arith)
                requires
                    n == k * q,
                    0 < k,
                    0 < n,
            ;
        }
    } else {
        lemma_fundamental_div_mod_converse(n + k - 1, k, q + 1, r - 1);
    }
}

/// The record of location `loc` standing exactly at the relative path
/// `sub` (its parent's path followed by its own name).
pub open spec fn sub_record_at(
    db: Seq<FilePathModel>,
    i: int,
    loc: u64,
    sub: Seq<Seq<char>>,
) -> bool {
    path_record_matches(db[i], loc, sub.take(sub.len() - 1), sub[sub.len() - 1])
}

/// Resolution of the scan scope from the configuration: the location root
/// itself for an empty sub-path, the sub-path when it is normal and a
/// directory record for it is indexed, and the distinguished configuration
/// error otherwise.
pub open spec fn resolve_scope(db: Seq<FilePathModel>, loc: u64, sub: Seq<Seq<char>>) -> Result<
    Seq<Seq<char>>,
    FileIdentifierJobError,
> {
    if sub.len() == 0 {
        Ok(Seq::empty())
    } else if !sub_path_is_normal(sub) {
        Err(FileIdentifierJobError::SubPathOutsideLocation)
    } else if exists|i: int| 0 <= i < db.len() && #[trigger] sub_record_at(db, i, loc, sub)
        && db[i].is_dir {
        Ok(sub)
    } else if exists|i: int| 0 <= i < db.len() && #[trigger] sub_record_at(db, i, loc, sub) {
        Err(FileIdentifierJobError::SubPathNotDirectory)
    } else {
        Err(FileIdentifierJobError::SubPathNotFound)
    }
}

/// The number of candidates one fetch returns when `n` remain.
pub open spec fn chunk_len(n: nat) -> int {
    if n <= CHUNK_SIZE {
        n as int
    } else {
        CHUNK_SIZE as int
    }
}

/// The job name of the shallow file identifier.
pub open spec fn shallow_name() -> Seq<char> {
    "shallow_file_identifier"@
}

/// Linking turned exactly the batch `b` of `db0` into records carrying a
/// content identity, leaving every other record untouched.
pub open spec fn db_after_link(
    db0: Seq<FilePathModel>,
    db1: Seq<FilePathModel>,
    b: Seq<FilePathModel>,
) -> bool {
    &&& db1.len() == db0.len()
    &&& forall|j: int| 0 <= j < db0.len() ==> (#[trigger] db1[j]).id == db0[j].id
    &&& forall|j: int|
        0 <= j < db0.len() && (exists|m: int|
            0 <= m < b.len() && (#[trigger] b[m]).id == db0[j].id) ==> #[trigger] db1[j]
            == (FilePathModel { object_id: Some(db0[j].id), ..db0[j] })
    &&& forall|j: int|
        0 <= j < db0.len() && !(exists|m: int|
            0 <= m < b.len() && (#[trigger] b[m]).id == db0[j].id) ==> #[trigger] db1[j] == db0[j]
}

/// The canonical resumable job.
pub struct ShallowFileIdentifierJob {}

/// The job's immutable configuration: the location to scan and an optional
/// relative sub-path (empty means the whole location).
pub struct ShallowFileIdentifierJobInit {
    pub location: LocationData,
    pub sub_path: Vec<String>,
}

impl ShallowFileIdentifierJobInit {
    /// The deterministic job-identity key used for deduplication of
    /// equivalent submissions: only the semantically significant fields,
    /// the location identity and the sub-path, enter it.
    pub fn dedup_key(&self) -> (r: (u64, Vec<String>))
        ensures
            r.0 == self.location.id,
            r.1.deep_view() == self.sub_path.deep_view(),
    {
        let p = clone_path(&self.sub_path);
        proof {
            assert(p.deep_view() =~= self.sub_path.deep_view());
        }
        (self.location.id, p)
    }
}

/// The job's mutable state: the pagination cursor, the running report and
/// the resolved scan scope.
pub struct ShallowFileIdentifierJobState {
    pub cursor: u64,
    pub report: FileIdentifierReport,
    pub sub_iso_file_path: IsolatedFilePathData,
}

/// The engine-held lifecycle state of a shallow file-identifier run.
pub type ShallowJobState = JobState<
    ShallowFileIdentifierJobInit,
    ShallowFileIdentifierJobState,
    (),
>;

/// What `init` requires: a well-formed store and a freshly submitted
/// state.
pub open spec fn shallow_init_req(ctx: WorkerContext, state: ShallowJobState) -> bool {
    &&& ctx.library.db.wf()
    &&& state.data is None
    &&& state.steps@.len() == 0
    &&& state.step_number == 0
}

/// What `init` ensures.  The store is only read.  A configuration error
/// leaves the state untouched; otherwise the state is populated with the
/// report, the resolved scope and the initial cursor, and either
/// `EarlyFinish` is signalled (no candidates) or the step queue is seeded
/// with one step per chunk and the task count is reported.
pub open spec fn shallow_init_ens(
    pre_ctx: WorkerContext,
    pre: ShallowJobState,
    post_ctx: WorkerContext,
    post: ShallowJobState,
    r: Result<(), JobError>,
) -> bool {
    let db = pre_ctx.library.db@;
    let loc = pre.init.location.id;
    let sub = pre.init.sub_path.deep_view();
    &&& shallow_init_req(pre_ctx, pre)
    &&& post_ctx.library == pre_ctx.library
    &&& post.init == pre.init
    &&& post.step_number == 0
    &&& match resolve_scope(db, loc, sub) {
        Err(e) => {
            &&& r == Err::<(), JobError>(JobError::FileIdentifier(e))
            &&& post.data is None
            &&& post.steps@.len() == 0
            &&& post_ctx.events@ == pre_ctx.events@
        },
        Ok(scope) => {
            let f = scope_filter(loc, None, scope);
            let n = orphans(db, f).len();
            &&& post.data matches Some(d) && {
                &&& d.report.location_path.deep_view() == pre.init.location.path.deep_view()
                &&& d.report.total_orphan_paths == n
                &&& d.report.total_identified == 0
                &&& d.report.total_failed == 0
                &&& d.sub_iso_file_path.location_id == loc
                &&& d.sub_iso_file_path.is_dir
                &&& d.sub_iso_file_path.path.deep_view() == scope
                &&& d.cursor == (if n == 0 {
                    0int
                } else {
                    orphans(db, f).first().id as int
                })
            }
            &&& if n == 0 {
                &&& r matches Err(JobError::EarlyFinish { name, reason }) && name@
                    == shallow_name() && reason@ == "Found no orphan file paths to process"@
                &&& post.steps@.len() == 0
                &&& post_ctx.events@ == pre_ctx.events@
            } else {
                &&& r is Ok
                &&& post.steps@.len() == ceil_div(n as int, CHUNK_SIZE as int)
                &&& post_ctx.events@ == pre_ctx.events@ + seq![
                    JobReportUpdate::TaskCount(ceil_div(n as int, CHUNK_SIZE as int) as usize),
                ]
            }
        },
    }
}

/// What `execute_step` requires: a well-formed store, an initialized
/// state whose scope is a directory, and room in the counters (the
/// identified total plus every remaining candidate fits the counter).
pub open spec fn shallow_step_req(ctx: WorkerContext, state: ShallowJobState) -> bool {
    &&& ctx.library.db.wf()
    &&& state.data matches Some(d) && {
        let f = scope_filter(
            state.init.location.id,
            Some(d.cursor),
            d.sub_iso_file_path.path.deep_view(),
        );
        &&& d.sub_iso_file_path.is_dir
        &&& d.report.total_identified + orphans(ctx.library.db@, f).len() <= usize::MAX
        &&& state.step_number < usize::MAX
    }
}

/// What `execute_step` ensures: the next chunk of candidates, in identity
/// order from the cursor on, is fetched and linked; the report and the
/// cursor advance accordingly; the step is reported as completed; and the
/// candidates still to fetch are exactly those after the batch.
pub open spec fn shallow_step_ens(
    pre_ctx: WorkerContext,
    pre: ShallowJobState,
    post_ctx: WorkerContext,
    post: ShallowJobState,
    r: Result<(), JobError>,
) -> bool {
    &&& shallow_step_req(pre_ctx, pre)
    &&& r is Ok
    &&& post.init == pre.init
    &&& post.steps == pre.steps
    &&& pre.steps@.len() <= usize::MAX
    &&& post.step_number == pre.step_number
    &&& pre.data matches Some(d) && post.data matches Some(d2) && {
        let db = pre_ctx.library.db@;
        let scope = d.sub_iso_file_path.path.deep_view();
        let f = scope_filter(pre.init.location.id, Some(d.cursor), scope);
        let fseq = orphans(db, f);
        let k = chunk_len(fseq.len());
        &&& d2.sub_iso_file_path == d.sub_iso_file_path
        &&& d2.report.location_path == d.report.location_path
        &&& d2.report.total_orphan_paths == d.report.total_orphan_paths
        &&& d2.report.total_failed == d.report.total_failed
        &&& d2.report.total_identified == d.report.total_identified + k
        &&& d2.cursor == (if k == 0 {
            d.cursor as int
        } else {
            fseq[k - 1].id + 1
        })
        &&& post_ctx.events@ == pre_ctx.events@ + seq![
            JobReportUpdate::CompletedTaskCount((pre.step_number + 1) as usize),
        ]
        &&& post_ctx.library.db.wf()
        &&& db_after_link(db, post_ctx.library.db@, fseq.take(k))
        &&& orphans(
            post_ctx.library.db@,
            scope_filter(pre.init.location.id, Some(d2.cursor), scope),
        ) == fseq.skip(k)
    }
}

/// Resolves the scan scope as `init` does: checks the sub-path against the
/// location root, isolates it, and checks that a directory record for it
/// is indexed in the store.
fn resolve_scope_exec(
    db: &Store,
    location: &LocationData,
    sub_path: &Vec<String>,
) -> (r: Result<IsolatedFilePathData, FileIdentifierJobError>)
    requires
        db.wf(),
    ensures
        match resolve_scope(db@, location.id, sub_path.deep_view()) {
            Ok(scope) => r matches Ok(iso) && {
                &&& iso.location_id == location.id
                &&& iso.is_dir
                &&& iso.path.deep_view() == scope
            },
            Err(e) => r == Err::<IsolatedFilePathData, FileIdentifierJobError>(e),
        },
{
    let ghost dbv = db@;
    let ghost sub = sub_path.deep_view();
    let loc_id = location.id;
    if sub_path.len() == 0 {
        let iso = match IsolatedFilePathData::new(loc_id, &location.path, &location.path, true) {
            Ok(iso) => iso,
            Err(_) => {
                proof {
                    assert(location.path.deep_view().take(location.path.deep_view().len() as int)
                        =~= location.path.deep_view());
                }
                vstd::pervasive::unreached()
            },
        };
        proof {
            assert(location.path.deep_view().take(location.path.deep_view().len() as int)
                =~= location.path.deep_view());
            assert(iso.path.deep_view() =~= Seq::<Seq<char>>::empty());
        }
        return Ok(iso);
    }
    let full_path = match ensure_sub_path_is_in_location(&location.path, sub_path) {
        Ok(fp) => fp,
        Err(_) => {
            return Err(FileIdentifierJobError::SubPathOutsideLocation);
        },
    };
    proof {
        assert(full_path.deep_view() =~= location.path.deep_view() + sub) by {
            assert(full_path@ == location.path@ + sub_path@);
            assert forall|i: int| 0 <= i < full_path@.len() implies full_path.deep_view()[i] == (
            location.path.deep_view() + sub)[i] by {
                if i < location.path@.len() {
                    assert(full_path@[i] == location.path@[i]);
                } else {
                    assert(full_path@[i] == sub_path@[i - location.path@.len()]);
                }
            }
        }
    }
    let iso = match IsolatedFilePathData::new(loc_id, &location.path, &full_path, true) {
        Ok(iso) => iso,
        Err(_) => {
            proof {
                assert(full_path.deep_view().take(location.path.deep_view().len() as int)
                    =~= location.path.deep_view());
            }
            vstd::pervasive::unreached()
        },
    };
    proof {
        assert(iso.path.deep_view() =~= sub);
    }
    let sub_len = sub_path.len();
    let mut parent: Vec<String> = Vec::new();
    let mut j: usize = 0;
    while j < sub_len - 1
        invariant
            sub_len == sub_path@.len(),
            sub_len >= 1,
            j <= sub_len - 1,
            parent@ == sub_path@.take(j as int),
        decreases sub_len - 1 - j,
    {
        parent.push(sub_path[j].clone());
        proof {
            assert(sub_path@.take(j + 1) =~= sub_path@.take(j as int).push(sub_path@[j as int]));
        }
        j = j + 1;
    }
    proof {
        assert(parent.deep_view() =~= sub.take(sub.len() - 1));
    }
    let name = &sub_path[sub_len - 1];
    match db.find_file_path(loc_id, &parent, name) {
        None => {
            proof {
                assert forall|i: int| 0 <= i < dbv.len() implies !(#[trigger] sub_record_at(
                    dbv,
                    i,
                    loc_id,
                    sub,
                )) by {
                    assert(!path_record_matches(dbv[i], loc_id, parent.deep_view(), name@));
                }
            }
            Err(FileIdentifierJobError::SubPathNotFound)
        },
        Some(rec) => {
            proof {
                let i = choose|i: int|
                    0 <= i < dbv.len() && #[trigger] dbv[i] == rec@ && path_record_matches(
                        rec@,
                        loc_id,
                        parent.deep_view(),
                        name@,
                    );
                assert(sub_record_at(dbv, i, loc_id, sub));
            }
            if !rec.is_dir {
                proof {
                    let i = choose|i: int|
                        0 <= i < dbv.len() && #[trigger] dbv[i] == rec@ && path_record_matches(
                            rec@,
                            loc_id,
                            parent.deep_view(),
                            name@,
                        );
                    assert forall|j2: int|
                        0 <= j2 < dbv.len() && #[trigger] sub_record_at(dbv, j2, loc_id, sub)
                            implies !dbv[j2].is_dir by {
                        if j2 != i {
                            assert(path_record_matches(
                                dbv[i],
                                dbv[j2].location_id,
                                dbv[j2].materialized_path,
                                dbv[j2].name,
                            ));
                            assert(false);
                        }
                    }
                }
                Err(FileIdentifierJobError::SubPathNotDirectory)
            } else {
                proof {
                    let i = choose|i: int|
                        0 <= i < dbv.len() && #[trigger] dbv[i] == rec@ && path_record_matches(
                            rec@,
                            loc_id,
                            parent.deep_view(),
                            name@,
                        );
                    assert(sub_record_at(dbv, i, loc_id, sub) && dbv[i].is_dir);
                }
                Ok(iso)
            }
        },
    }
}

/// What `finalize` requires: an initialized state.
pub open spec fn shallow_finalize_req(ctx: WorkerContext, state: ShallowJobState) -> bool {
    state.data is Some
}

/// What `finalize` ensures: the summary is the report held in the state,
/// and nothing else happens.
pub open spec fn shallow_finalize_ens(
    pre_ctx: WorkerContext,
    state: ShallowJobState,
    post_ctx: WorkerContext,
    r: Result<FileIdentifierReport, JobError>,
) -> bool {
    &&& post_ctx == pre_ctx
    &&& state.data matches Some(d) && r matches Ok(rep) && {
        &&& rep.location_path.deep_view() == d.report.location_path.deep_view()
        &&& rep.total_orphan_paths == d.report.total_orphan_paths
        &&& rep.total_identified == d.report.total_identified
        &&& rep.total_failed == d.report.total_failed
    }
}

/// With zero orphan candidates, `init` signals `EarlyFinish`, queues no
/// step and emits nothing; by the runner's contract no step then executes
/// and `finalize` is never invoked, so no summary is produced.
pub proof fn lemma_early_finish_no_work(
    pre_ctx: WorkerContext,
    pre: ShallowJobState,
    post_ctx: WorkerContext,
    post: ShallowJobState,
    r: Result<(), JobError>,
)
    requires
        shallow_init_ens(pre_ctx, pre, post_ctx, post, r),
        resolve_scope(
            pre_ctx.library.db@,
            pre.init.location.id,
            pre.init.sub_path.deep_view(),
        ) matches Ok(scope) && orphans(
            pre_ctx.library.db@,
            scope_filter(pre.init.location.id, None, scope),
        ).len() == 0,
    ensures
        r matches Err(e) && e is EarlyFinish,
        post.steps@.len() == 0,
        post_ctx.events@ == pre_ctx.events@,
        post_ctx.library == pre_ctx.library,
{
}

/// With `n > 0` orphan candidates, `init` queues exactly
/// `ceil(n / CHUNK_SIZE)` steps and reports that count as the task count;
/// each following step then reports its completion exactly once, with the
/// completed count one past the step's index.
pub proof fn lemma_step_count_is_ceiling(
    pre_ctx: WorkerContext,
    pre: ShallowJobState,
    post_ctx: WorkerContext,
    post: ShallowJobState,
    r: Result<(), JobError>,
)
    requires
        shallow_init_ens(pre_ctx, pre, post_ctx, post, r),
        resolve_scope(
            pre_ctx.library.db@,
            pre.init.location.id,
            pre.init.sub_path.deep_view(),
        ) matches Ok(scope) && orphans(
            pre_ctx.library.db@,
            scope_filter(pre.init.location.id, None, scope),
        ).len() > 0,
    ensures
        r is Ok,
        ({
            let scope = resolve_scope(
                pre_ctx.library.db@,
                pre.init.location.id,
                pre.init.sub_path.deep_view(),
            )->Ok_0;
            let n = orphans(pre_ctx.library.db@, scope_filter(pre.init.location.id, None, scope)).len();
            &&& post.steps@.len() == ceil_div(n as int, CHUNK_SIZE as int)
            &&& post_ctx.events@ == pre_ctx.events@ + seq![
                JobReportUpdate::TaskCount(ceil_div(n as int, CHUNK_SIZE as int) as usize),
            ]
        }),
{
}

/// Each executed step emits exactly one completion event, for one past its
/// own index: over a run the reported completed counts are `1, 2, ...` up
/// to the task count.
pub proof fn lemma_progress_once_per_step(
    pre_ctx: WorkerContext,
    pre: ShallowJobState,
    post_ctx: WorkerContext,
    post: ShallowJobState,
    r: Result<(), JobError>,
)
    requires
        shallow_step_ens(pre_ctx, pre, post_ctx, post, r),
    ensures
        post_ctx.events@ == pre_ctx.events@ + seq![
            JobReportUpdate::CompletedTaskCount((pre.step_number + 1) as usize),
        ],
{
}

/// Conservation across a step: the candidates a step fetches are exactly
/// the ones it identifies, so the identified total grows by what the
/// remaining pool shrinks by — one full chunk while more than a chunk
/// remains, the rest otherwise.  Starting from an identified total of
/// zero and a pool of `n`, steps therefore end with every candidate of
/// the initial count identified once the pool is empty.
pub proof fn lemma_no_candidate_lost(
    pre_ctx: WorkerContext,
    pre: ShallowJobState,
    post_ctx: WorkerContext,
    post: ShallowJobState,
    r: Result<(), JobError>,
)
    requires
        shallow_step_ens(pre_ctx, pre, post_ctx, post, r),
    ensures
        ({
            let d = pre.data->Some_0;
            let d2 = post.data->Some_0;
            let scope = d.sub_iso_file_path.path.deep_view();
            let before = orphans(
                pre_ctx.library.db@,
                scope_filter(pre.init.location.id, Some(d.cursor), scope),
            ).len();
            let after = orphans(
                post_ctx.library.db@,
                scope_filter(pre.init.location.id, Some(d2.cursor), scope),
            ).len();
            &&& after == (if before <= CHUNK_SIZE {
                0int
            } else {
                before - CHUNK_SIZE
            })
            &&& d2.report.total_identified + after == d.report.total_identified + before
        }),
{
}

/// The candidate pool left after `steps` further steps, each taking a
/// full chunk while one remains.
pub open spec fn remaining_after(n: nat, steps: nat) -> nat
    decreases steps,
{
    if steps == 0 {
        n
    } else {
        remaining_after(
            if n <= CHUNK_SIZE {
                0nat
            } else {
                (n - CHUNK_SIZE) as nat
            },
            (steps - 1) as nat,
        )
    }
}

/// The step count `init` queues exhausts the candidate pool: after
/// `ceil(n / CHUNK_SIZE)` steps nothing remains, so by
/// `lemma_no_candidate_lost` the final identified total equals the
/// initial count when the pool is not shrunk from outside.
pub proof fn lemma_chunks_exhaust(n: nat)
    ensures
        remaining_after(n, ceil_div(n as int, CHUNK_SIZE as int) as nat) == 0,
    decreases n,
{
    let c = CHUNK_SIZE as int;
    lemma_ceil_div(n as int, c);
    if n == 0 {
    } else if n <= CHUNK_SIZE {
        assert(ceil_div(n as int, c) == 1) by {
            lemma_fundamental_div_mod_converse(n as int + c - 1, c, 1, n as int - 1);
        }
        assert(remaining_after(n, 1) == remaining_after(0nat, 0nat));
        assert(remaining_after(0nat, 0nat) == 0);
    } else {
        let m = (n - CHUNK_SIZE) as nat;
        assert(ceil_div(n as int, c) == ceil_div(m as int, c) + 1) by {
            let q = ceil_div(m as int, c);
            lemma_fundamental_div_mod(m as int + c - 1, c);
            assert((q + 1) * c == q * c + c) by (nonlinear_arith);
            lemma_fundamental_div_mod_converse(
                n as int + c - 1,
                c,
                q + 1,
                (m as int + c - 1) % c,
            );
        }
        lemma_chunks_exhaust(m);
        assert(remaining_after(n, (ceil_div(m as int, c) + 1) as nat) == remaining_after(
            m,
            ceil_div(m as int, c) as nat,
        ));
    }
}

/// Cursor monotonicity: across a step the cursor never decreases, and no
/// entry of the batch fetched in a step has an identity below the cursor
/// the previous step left behind.
pub proof fn lemma_cursor_monotone(
    pre_ctx: WorkerContext,
    pre: ShallowJobState,
    post_ctx: WorkerContext,
    post: ShallowJobState,
    r: Result<(), JobError>,
)
    requires
        shallow_step_ens(pre_ctx, pre, post_ctx, post, r),
    ensures
        post.data->Some_0.cursor >= pre.data->Some_0.cursor,
        ({
            let d = pre.data->Some_0;
            let f = scope_filter(
                pre.init.location.id,
                Some(d.cursor),
                d.sub_iso_file_path.path.deep_view(),
            );
            let fseq = orphans(pre_ctx.library.db@, f);
            forall|i: int|
                0 <= i < fseq.take(chunk_len(fseq.len())).len() ==> (#[trigger] fseq.take(
                    chunk_len(fseq.len()),
                )[i]).id >= d.cursor
        }),
{
    let d = pre.data->Some_0;
    let db = pre_ctx.library.db@;
    let f = scope_filter(pre.init.location.id, Some(d.cursor), d.sub_iso_file_path.path.deep_view());
    let fseq = orphans(db, f);
    let k = chunk_len(fseq.len());
    assert forall|i: int| 0 <= i < fseq.take(k).len() implies (#[trigger] fseq.take(k)[i]).id
        >= d.cursor by {
        db.lemma_filter_pred(orphan_pred(f), i);
        assert(fseq.take(k)[i] == fseq[i]);
    }
    if k > 0 {
        db.lemma_filter_pred(orphan_pred(f), k - 1);
    }
}

/// The persisted content of two job states: what survives a restart.
pub open spec fn states_agree(s_a: ShallowJobState, s_b: ShallowJobState) -> bool {
    &&& s_a.init.location.id == s_b.init.location.id
    &&& s_a.init.location.path.deep_view() == s_b.init.location.path.deep_view()
    &&& s_a.init.sub_path.deep_view() == s_b.init.sub_path.deep_view()
    &&& s_a.step_number == s_b.step_number
    &&& s_a.steps@.len() == s_b.steps@.len()
    &&& match (s_a.data, s_b.data) {
        (Some(da), Some(db_)) => {
            &&& da.cursor == db_.cursor
            &&& da.report.total_orphan_paths == db_.report.total_orphan_paths
            &&& da.report.total_identified == db_.report.total_identified
            &&& da.report.total_failed == db_.report.total_failed
            &&& da.report.location_path.deep_view() == db_.report.location_path.deep_view()
            &&& da.sub_iso_file_path.location_id == db_.sub_iso_file_path.location_id
            &&& da.sub_iso_file_path.is_dir == db_.sub_iso_file_path.is_dir
            &&& da.sub_iso_file_path.path.deep_view() == db_.sub_iso_file_path.path.deep_view()
        },
        (None, None) => true,
        _ => false,
    }
}

/// Idempotence of resume.  A job state reloaded from persistence carries
/// exactly the persisted content, so consider any two runs whose states
/// agree on that content and whose stores hold the same records: one step
/// of each fetches the same batch, links the same records, and leaves
/// agreeing states and equal stores again.  By induction over the
/// remaining steps, re-running steps `k+1..end` from the state persisted
/// after step `k` reproduces the report totals and store of the
/// uninterrupted run, and (with `lemma_cursor_monotone`) never processes
/// an entry whose identity lies below the cursor at resume.
pub proof fn lemma_resume_idempotent(
    ctx_a: WorkerContext,
    s_a: ShallowJobState,
    ctx_a2: WorkerContext,
    s_a2: ShallowJobState,
    r_a: Result<(), JobError>,
    ctx_b: WorkerContext,
    s_b: ShallowJobState,
    ctx_b2: WorkerContext,
    s_b2: ShallowJobState,
    r_b: Result<(), JobError>,
)
    requires
        shallow_step_ens(ctx_a, s_a, ctx_a2, s_a2, r_a),
        shallow_step_ens(ctx_b, s_b, ctx_b2, s_b2, r_b),
        states_agree(s_a, s_b),
        ctx_a.library.db@ == ctx_b.library.db@,
    ensures
        states_agree(s_a2, s_b2),
        ctx_a2.library.db@ == ctx_b2.library.db@,
{
    let d_a = s_a.data->Some_0;
    let d_b = s_b.data->Some_0;
    let db = ctx_a.library.db@;
    let f_a = scope_filter(
        s_a.init.location.id,
        Some(d_a.cursor),
        d_a.sub_iso_file_path.path.deep_view(),
    );
    let f_b = scope_filter(
        s_b.init.location.id,
        Some(d_b.cursor),
        d_b.sub_iso_file_path.path.deep_view(),
    );
    assert(f_a =~= f_b);
    let fseq = orphans(db, f_a);
    let k = chunk_len(fseq.len());
    let db_a2 = ctx_a2.library.db@;
    let db_b2 = ctx_b2.library.db@;
    assert forall|j: int| 0 <= j < db.len() implies #[trigger] db_a2[j] == db_b2[j] by {
        if exists|m: int|
            0 <= m < fseq.take(k).len() && (#[trigger] fseq.take(k)[m]).id == db[j].id {
            assert(db_a2[j] == (FilePathModel { object_id: Some(db[j].id), ..db[j] }));
            assert(db_b2[j] == (FilePathModel { object_id: Some(db[j].id), ..db[j] }));
        } else {
            assert(db_a2[j] == db[j] && db_b2[j] == db[j]);
        }
    }
    assert(db_a2 =~= db_b2);
}

impl StatefulJob for ShallowFileIdentifierJob {
    type Init = ShallowFileIdentifierJobInit;

    type Data = ShallowFileIdentifierJobState;

    type Step = ();

    type Output = FileIdentifierReport;

    open spec fn name_spec() -> Seq<char> {
        shallow_name()
    }

    open spec fn init_req(ctx: WorkerContext, state: ShallowJobState) -> bool {
        shallow_init_req(ctx, state)
    }

    open spec fn init_ens(
        pre_ctx: WorkerContext,
        pre: ShallowJobState,
        post_ctx: WorkerContext,
        post: ShallowJobState,
        r: Result<(), JobError>,
    ) -> bool {
        shallow_init_ens(pre_ctx, pre, post_ctx, post, r)
    }

    open spec fn step_req(ctx: WorkerContext, state: ShallowJobState) -> bool {
        shallow_step_req(ctx, state)
    }

    open spec fn step_ens(
        pre_ctx: WorkerContext,
        pre: ShallowJobState,
        post_ctx: WorkerContext,
        post: ShallowJobState,
        r: Result<(), JobError>,
    ) -> bool {
        shallow_step_ens(pre_ctx, pre, post_ctx, post, r)
    }

    open spec fn finalize_req(ctx: WorkerContext, state: ShallowJobState) -> bool {
        shallow_finalize_req(ctx, state)
    }

    open spec fn finalize_ens(
        pre_ctx: WorkerContext,
        state: ShallowJobState,
        post_ctx: WorkerContext,
        r: Result<FileIdentifierReport, JobError>,
    ) -> bool {
        shallow_finalize_ens(pre_ctx, state, post_ctx, r)
    }

    fn name(&self) -> (r: String) {
        String::from_str("shallow_file_identifier")
    }

    fn init(&self, ctx: &mut WorkerContext, state: &mut ShallowJobState) -> (r: Result<
        (),
        JobError,
    >) {
        let ghost db = ctx.library.db@;
        let ghost sub = state.init.sub_path.deep_view();
        let loc_id = state.init.location.id;
        let iso = match resolve_scope_exec(
            &ctx.library.db,
            &state.init.location,
            &state.init.sub_path,
        ) {
            Ok(iso) => iso,
            Err(e) => {
                return Err(JobError::FileIdentifier(e));
            },
        };
        let orphan_count = count_orphan_file_paths(&ctx.library.db, loc_id, &iso);
        let lp = clone_path(&state.init.location.path);
        proof {
            assert(lp.deep_view() =~= state.init.location.path.deep_view());
        }
        let report = FileIdentifierReport {
            location_path: lp,
            total_orphan_paths: orphan_count,
            total_identified: 0,
            total_failed: 0,
        };
        if orphan_count == 0 {
            state.data = Some(
                ShallowFileIdentifierJobState { cursor: 0, report, sub_iso_file_path: iso },
            );
            return Err(
                JobError::EarlyFinish {
                    name: String::from_str("shallow_file_identifier"),
                    reason: String::from_str("Found no orphan file paths to process"),
                },
            );
        }
        let filter = orphan_path_filters(loc_id, None, &iso);
        let first_id = match find_first_orphan(&ctx.library.db, &filter) {
            Some(id) => id,
            None => vstd::pervasive::unreached(),
        };
        state.data = Some(
            ShallowFileIdentifierJobState { cursor: first_id, report, sub_iso_file_path: iso },
        );
        proof {
            lemma_ceil_div(orphan_count as int, CHUNK_SIZE as int);
        }
        let task_count = orphan_count / CHUNK_SIZE + (if orphan_count % CHUNK_SIZE == 0 {
            0
        } else {
            1
        });
        let mut steps: Vec<()> = Vec::new();
        let mut t: usize = 0;
        while t < task_count
            invariant
                t <= task_count,
                steps@.len() == t,
            decreases task_count - t,
        {
            steps.push(());
            t = t + 1;
        }
        state.steps = steps;
        let mut updates: Vec<JobReportUpdate> = Vec::new();
        updates.push(JobReportUpdate::TaskCount(task_count));
        proof {
            assert(updates@ =~= seq![JobReportUpdate::TaskCount(task_count)]);
        }
        ctx.progress(updates);
        Ok(())
    }

    fn execute_step(&self, ctx: &mut WorkerContext, state: &mut ShallowJobState) -> (r: Result<
        (),
        JobError,
    >) {
        let ghost db0 = ctx.library.db@;
        let ghost d = state.data->Some_0;
        let ghost scope = d.sub_iso_file_path.path.deep_view();
        let ghost f = scope_filter(state.init.location.id, Some(d.cursor), scope);
        let ghost fseq = orphans(db0, f);
        let ghost k = chunk_len(fseq.len());
        let loc_id = state.init.location.id;
        proof {
            assert(state.steps@.len() == state.steps.len());
        }
        let file_paths = match &state.data {
            Some(data) => get_orphan_file_paths(
                &ctx.library.db,
                loc_id,
                data.cursor,
                &data.sub_iso_file_path,
            ),
            None => vstd::pervasive::unreached(),
        };
        let ghost bv = file_paths@.map_values(|rec: FilePathRecord| rec@);
        proof {
            assert(bv == fseq.take(k));
            lemma_filter_keeps_order(db0, orphan_pred(f));
            assert forall|i: int| 0 <= i < bv.len() implies (#[trigger] bv[i]).id < u64::MAX by {
                assert(bv[i] == fseq[i]);
                let j = choose|j: int| 0 <= j < db0.len() && #[trigger] fseq[i] == db0[j];
                assert(db0[j].id < u64::MAX);
            }
            assert forall|i: int, j: int| 0 <= i < j < bv.len() implies (#[trigger] bv[i]).id < (
            #[trigger] bv[j]).id by {
                assert(bv[i] == fseq[i] && bv[j] == fseq[j]);
            }
            assert(bv.len() == k && k <= fseq.len());
            assert forall|i: int| 0 <= i < file_paths@.len() implies (#[trigger] file_paths@[
            i]@).id < u64::MAX by {
                assert(bv[i] == file_paths@[i]@);
            }
        }
        let step_number = state.step_number;
        let res = match &mut state.data {
            Some(data) => process_identifier_file_paths(
                &file_paths,
                step_number,
                &mut data.cursor,
                &mut data.report,
                ctx,
            ),
            None => vstd::pervasive::unreached(),
        };
        proof {
            let db1 = ctx.library.db@;
            let d2 = state.data->Some_0;
            assert forall|j: int| 0 <= j < db0.len() implies {
                let m1 = #[trigger] db1[j];
                let m0 = db0[j];
                &&& m1.location_id == m0.location_id
                &&& m1.materialized_path == m0.materialized_path
                &&& m1.name == m0.name
                &&& m1.is_dir == m0.is_dir
                &&& m1.id == m0.id
            } by {
                if exists|m: int| 0 <= m < bv.len() && (#[trigger] bv[m]).id == db0[j].id {
                    assert(db1[j] == (FilePathModel { object_id: Some(db0[j].id), ..db0[j] }));
                } else {
                    assert(db1[j] == db0[j]);
                }
            }
            assert(ctx.library.db.wf()) by {
                assert(forall|i: int, j: int|
                    0 <= i < j < db1.len() ==> #[trigger] db1[i].id < #[trigger] db1[j].id);
                assert(forall|i: int| 0 <= i < db1.len() ==> (#[trigger] db1[i].id) < u64::MAX);
                assert forall|i: int, j: int| 0 <= i < j < db1.len() implies !path_record_matches(
                    #[trigger] db1[i],
                    (#[trigger] db1[j]).location_id,
                    db1[j].materialized_path,
                    db1[j].name,
                ) by {
                    assert(!path_record_matches(
                        db0[i],
                        db0[j].location_id,
                        db0[j].materialized_path,
                        db0[j].name,
                    ));
                }
            }
            if k > 0 {
                db0.lemma_filter_pred(orphan_pred(f), k - 1);
                assert(bv.last() == fseq[k - 1]);
                assert(d2.cursor == fseq[k - 1].id + 1);
                lemma_orphans_after_link(db0, db1, f, k, d2.cursor);
            } else {
                assert(fseq.len() == 0);
                assert(bv.len() == 0);
                assert forall|j: int| 0 <= j < db0.len() implies #[trigger] db1[j] == db0[j] by {
                    assert(!(exists|m: int| 0 <= m < bv.len() && (#[trigger] bv[m]).id == db0[
                    j].id));
                }
                assert(db1 =~= db0);
                assert(d2.cursor == d.cursor);
                assert(fseq.skip(0) =~= fseq);
            }
        }
        res
    }

    fn finalize(&self, ctx: &mut WorkerContext, state: &ShallowJobState) -> (r: Result<
        FileIdentifierReport,
        JobError,
    >) {
        match &state.data {
            Some(d) => Ok(d.report.duplicate()),
            None => vstd::pervasive::unreached(),
        }
    }

    proof fn init_enables(
        pre_ctx: WorkerContext,
        pre: ShallowJobState,
        post_ctx: WorkerContext,
        post: ShallowJobState,
    ) {
        let db = pre_ctx.library.db@;
        let loc = pre.init.location.id;
        let sub = pre.init.sub_path.deep_view();
        if let Ok(scope) = resolve_scope(db, loc, sub) {
            let f = scope_filter(loc, None, scope);
            let n = orphans(db, f).len();
            lemma_ceil_div(n as int, CHUNK_SIZE as int);
            if n > 0 && post.step_number < post.steps@.len() {
                lemma_orphans_from_first(db, f);
                let d = post.data->Some_0;
                assert(orphans(db, scope_filter(loc, Some(d.cursor), scope)) == orphans(db, f));
            }
        }
    }

    proof fn step_enables(
        pre_ctx: WorkerContext,
        pre: ShallowJobState,
        post_ctx: WorkerContext,
        post: ShallowJobState,
    ) {
        let db = pre_ctx.library.db@;
        let d = pre.data->Some_0;
        let d2 = post.data->Some_0;
        let scope = d.sub_iso_file_path.path.deep_view();
        let f = scope_filter(pre.init.location.id, Some(d.cursor), scope);
        let fseq = orphans(db, f);
        let k = chunk_len(fseq.len());
        assert(orphans(
            post_ctx.library.db@,
            scope_filter(pre.init.location.id, Some(d2.cursor), scope),
        ) == fseq.skip(k));
        assert(fseq.skip(k).len() == fseq.len() - k);
    }
}

} // verus!
