//! In-memory model of the metadata store's file-path table.
//!
//! The engine's persistent store is reduced to the facts the scan logic
//! reads and writes: for each file-path record its numeric identity, its
//! location, its materialized path (the path of its parent directory,
//! relative to the location root), its own name, whether it is a directory,
//! and the content identity it is linked to, if any.  Records are kept in
//! ascending identity order, mirroring identities that are assigned
//! monotonically and never reused.

use crate::location::clone_path;
use vstd::prelude::*;

verus! {

/// Mathematical model of one file-path record.
#[verifier::ext_equal]
pub struct FilePathModel {
    pub id: u64,
    pub location_id: u64,
    pub materialized_path: Seq<Seq<char>>,
    pub name: Seq<char>,
    pub is_dir: bool,
    pub object_id: Option<u64>,
}

/// One file-path record of the metadata store.
pub struct FilePathRecord {
    pub id: u64,
    pub location_id: u64,
    pub materialized_path: Vec<String>,
    pub name: String,
    pub is_dir: bool,
    pub object_id: Option<u64>,
}

impl View for FilePathRecord {
    type V = FilePathModel;

    open spec fn view(&self) -> FilePathModel {
        FilePathModel {
            id: self.id,
            location_id: self.location_id,
            materialized_path: self.materialized_path.deep_view(),
            name: self.name@,
            is_dir: self.is_dir,
            object_id: self.object_id,
        }
    }
}

impl FilePathRecord {
    /// Copies the record.
    pub fn duplicate(&self) -> (r: Self)
        ensures
            r@ == self@,
    {
        let r = FilePathRecord {
            id: self.id,
            location_id: self.location_id,
            materialized_path: clone_path(&self.materialized_path),
            name: self.name.clone(),
            is_dir: self.is_dir,
            object_id: if let Some(oid) = self.object_id {
                Some(oid)
            } else {
                None
            },
        };
        proof {
            assert(r.materialized_path.deep_view() =~= self.materialized_path.deep_view());
            assert(r@ =~= self@);
        }
        r
    }
}

/// A record of `loc` standing at path `parent` under the name `name`.
pub open spec fn path_record_matches(
    m: FilePathModel,
    loc: u64,
    parent: Seq<Seq<char>>,
    name: Seq<char>,
) -> bool {
    &&& m.location_id == loc
    &&& m.materialized_path == parent
    &&& m.name == name
}

/// The metadata store: the file-path table.
pub struct Store {
    pub records: Vec<FilePathRecord>,
}

impl View for Store {
    type V = Seq<FilePathModel>;

    open spec fn view(&self) -> Seq<FilePathModel> {
        self.records@.map_values(|r: FilePathRecord| r@)
    }
}

impl Store {
    /// Record identities are strictly increasing (so unique and ordered as
    /// stored), leave room for a successor, and no two records stand at the
    /// same path of the same location.
    pub open spec fn wf(self) -> bool {
        &&& forall|i: int, j: int|
            0 <= i < j < self@.len() ==> #[trigger] self@[i].id < #[trigger] self@[j].id
        &&& forall|i: int| 0 <= i < self@.len() ==> (#[trigger] self@[i].id) < u64::MAX
        &&& forall|i: int, j: int|
            0 <= i < j < self@.len() ==> !path_record_matches(
                #[trigger] self@[i],
                (#[trigger] self@[j]).location_id,
                self@[j].materialized_path,
                self@[j].name,
            )
    }

    /// Looks up the record standing at the given path of the given
    /// location, the store's find-first query on an exact path key.
    pub fn find_file_path(
        &self,
        location_id: u64,
        materialized_path: &Vec<String>,
        name: &String,
    ) -> (r: Option<FilePathRecord>)
        ensures
            r is Some <==> exists|i: int|
                0 <= i < self@.len() && path_record_matches(
                    #[trigger] self@[i],
                    location_id,
                    materialized_path.deep_view(),
                    name@,
                ),
            r matches Some(rec) ==> exists|i: int|
                0 <= i < self@.len() && #[trigger] self@[i] == rec@ && path_record_matches(
                    rec@,
                    location_id,
                    materialized_path.deep_view(),
                    name@,
                ),
    {
        let mut i: usize = 0;
        while i < self.records.len()
            invariant
                i <= self@.len(),
                self@.len() == self.records@.len(),
                forall|j: int| 0 <= j < i ==> !path_record_matches(
                    #[trigger] self@[j],
                    location_id,
                    materialized_path.deep_view(),
                    name@,
                ),
            decreases self.records.len() - i,
        {
            let rec = &self.records[i];
            if rec.location_id == location_id && crate::location::path_eq(
                &rec.materialized_path,
                materialized_path,
            ) && rec.name == *name {
                let out = rec.duplicate();
                proof {
                    assert(self@[i as int] == out@);
                }
                return Some(out);
            }
            proof {
                assert(self@[i as int] == self.records@[i as int]@);
            }
            i = i + 1;
        }
        None
    }

    /// Links the record with identity `id` to the content identity
    /// `object_id`; every other record is untouched.  Returns whether a
    /// record with that identity existed.
    pub fn link_object(&mut self, id: u64, object_id: u64) -> (r: bool)
        ensures
            final(self)@.len() == old(self)@.len(),
            forall|k: int|
                0 <= k < old(self)@.len() && old(self)@[k].id != id ==> final(self)@[k] == #[trigger] old(
                    self,
                )@[k],
            forall|k: int|
                0 <= k < old(self)@.len() && old(self)@[k].id == id ==> final(self)@[k]
                    == (FilePathModel { object_id: Some(object_id), ..#[trigger] old(self)@[k] }),
            r == exists|k: int| 0 <= k < old(self)@.len() && (#[trigger] old(self)@[k].id) == id,
    {
        let mut i: usize = 0;
        let mut found: bool = false;
        while i < self.records.len()
            invariant
                i <= self@.len(),
                self@.len() == self.records@.len(),
                self@.len() == old(self)@.len(),
                forall|k: int| i <= k < self@.len() ==> self@[k] == #[trigger] old(self)@[k],
                forall|k: int|
                    0 <= k < i && old(self)@[k].id != id ==> self@[k] == #[trigger] old(self)@[k],
                forall|k: int|
                    0 <= k < i && old(self)@[k].id == id ==> self@[k] == (FilePathModel {
                        object_id: Some(object_id),
                        ..#[trigger] old(self)@[k]
                    }),
                found == exists|k: int| 0 <= k < i && (#[trigger] old(self)@[k].id) == id,
            decreases self.records.len() - i,
        {
            proof {
                assert(self@[i as int] == self.records@[i as int]@);
            }
            if self.records[i].id == id {
                let mut rec = self.records[i].duplicate();
                rec.object_id = Some(object_id);
                self.records[i] = rec;
                found = true;
                proof {
                    assert(self@[i as int] =~= (FilePathModel {
                        object_id: Some(object_id),
                        ..old(self)@[i as int]
                    }));
                    assert(forall|k: int|
                        0 <= k < self@.len() && k != i ==> self@[k] == self.records@[k]@);
                }
            }
            i = i + 1;
        }
        found
    }
}

/// Two equally long sequences on which two predicates agree pointwise, and
/// whose kept elements are equal, filter to the same sequence.
pub proof fn lemma_filter_eq_pointwise<A>(
    s: Seq<A>,
    t: Seq<A>,
    p: spec_fn(A) -> bool,
    q: spec_fn(A) -> bool,
)
    requires
        s.len() == t.len(),
        forall|i: int| 0 <= i < s.len() ==> p(#[trigger] s[i]) == q(#[trigger] t[i]),
        forall|i: int| 0 <= i < s.len() && p(#[trigger] s[i]) ==> s[i] == t[i],
    ensures
        s.filter(p) == t.filter(q),
    decreases s.len(),
{
    reveal(Seq::filter);
    if s.len() > 0 {
        lemma_filter_eq_pointwise(s.drop_last(), t.drop_last(), p, q);
    }
}

/// Filtering by a predicate that is a conjunction is filtering twice.
pub proof fn lemma_filter_split<A>(
    s: Seq<A>,
    pq: spec_fn(A) -> bool,
    p: spec_fn(A) -> bool,
    q: spec_fn(A) -> bool,
)
    requires
        forall|x: A| #[trigger] pq(x) == (p(x) && q(x)),
    ensures
        s.filter(pq) == s.filter(p).filter(q),
    decreases s.len(),
{
    reveal(Seq::filter);
    if s.len() > 0 {
        lemma_filter_split(s.drop_last(), pq, p, q);
        let fp_d = s.drop_last().filter(p);
        if p(s.last()) {
            assert((fp_d.push(s.last())).drop_last() =~= fp_d);
            assert((fp_d.push(s.last())).last() == s.last());
            assert((fp_d.push(s.last())).len() == fp_d.len() + 1);
        }
    }
}

/// Filtering a pushed sequence keeps the new element exactly when the
/// predicate holds of it.
pub proof fn lemma_filter_push<A>(s: Seq<A>, x: A, p: spec_fn(A) -> bool)
    ensures
        (s.push(x)).filter(p) == if p(x) {
            s.filter(p).push(x)
        } else {
            s.filter(p)
        },
{
    reveal(Seq::filter);
    assert((s.push(x)).drop_last() =~= s);
    assert((s.push(x)).last() == x);
    assert((s.push(x)).len() == s.len() + 1);
}

/// A filter that keeps every element returns the sequence itself.
pub proof fn lemma_filter_all<A>(s: Seq<A>, p: spec_fn(A) -> bool)
    requires
        forall|i: int| 0 <= i < s.len() ==> p(#[trigger] s[i]),
    ensures
        s.filter(p) == s,
    decreases s.len(),
{
    reveal(Seq::filter);
    if s.len() > 0 {
        lemma_filter_all(s.drop_last(), p);
        assert(s.drop_last().filter(p).push(s.last()) =~= s);
    }
}

/// A filter that keeps no element returns the empty sequence.
pub proof fn lemma_filter_none<A>(s: Seq<A>, p: spec_fn(A) -> bool)
    requires
        forall|i: int| 0 <= i < s.len() ==> !p(#[trigger] s[i]),
    ensures
        s.filter(p) == Seq::<A>::empty(),
    decreases s.len(),
{
    reveal(Seq::filter);
    if s.len() > 0 {
        lemma_filter_none(s.drop_last(), p);
        assert(s.filter(p) =~= Seq::<A>::empty());
    }
}

/// Record identities strictly increase along the sequence.
pub open spec fn ids_strictly_increasing(s: Seq<FilePathModel>) -> bool {
    forall|i: int, j: int| 0 <= i < j < s.len() ==> #[trigger] s[i].id < #[trigger] s[j].id
}

/// Filtering preserves the strict identity order.
pub proof fn lemma_filter_keeps_order(s: Seq<FilePathModel>, p: spec_fn(FilePathModel) -> bool)
    requires
        ids_strictly_increasing(s),
    ensures
        ids_strictly_increasing(s.filter(p)),
        forall|i: int|
            0 <= i < s.filter(p).len() ==> exists|j: int|
                0 <= j < s.len() && #[trigger] s.filter(p)[i] == s[j],
    decreases s.len(),
{
    reveal(Seq::filter);
    if s.len() > 0 {
        assert(ids_strictly_increasing(s.drop_last()));
        lemma_filter_keeps_order(s.drop_last(), p);
        let f = s.filter(p);
        let fd = s.drop_last().filter(p);
        if p(s.last()) {
            assert forall|i: int, j: int| 0 <= i < j < f.len() implies f[i].id < f[j].id by {
                if j < f.len() - 1 {
                    assert(fd[i] == f[i] && fd[j] == f[j]);
                } else {
                    assert(f[j] == s.last());
                    assert(fd[i] == f[i]);
                    let w = choose|w: int| 0 <= w < s.drop_last().len() && fd[i] == s.drop_last()[w];
                    assert(s[w] == s.drop_last()[w]);
                    assert(s[w].id < s.last().id);
                }
            }
        }
    }
}

} // verus!
