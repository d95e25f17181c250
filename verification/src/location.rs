//! Path isolation: location-relative, hierarchy-aware path identifiers.
//!
//! A filesystem path is modelled as a sequence of path components, each a
//! `String`.  An isolated path is the location-relative remainder of a full
//! path once the location's root has been stripped; it is a stable scan-scope
//! key that does not depend on the location's absolute mount point.

use vstd::prelude::*;
use vstd::string::*;

verus! {

/// A filesystem location registered with the engine: a stable numeric
/// identity plus the path of its root directory, as components.
pub struct LocationData {
    pub id: u64,
    pub path: Vec<String>,
}

/// Failure to isolate a path against a location root.
#[derive(Clone, Copy, PartialEq, Eq, Structural, Debug)]
pub enum FilePathError {
    PathNotInLocation,
}

/// A path component is normal when it is a plain name: non-empty and
/// neither of the traversal components `.` and `..`.
pub open spec fn component_is_normal(c: Seq<char>) -> bool {
    &&& c.len() > 0
    &&& c != seq!['.']
    &&& c != seq!['.', '.']
}

/// A relative path stays inside the directory it is resolved against
/// exactly when every component is a plain name.
pub open spec fn sub_path_is_normal(p: Seq<Seq<char>>) -> bool {
    forall|i: int| 0 <= i < p.len() ==> #[trigger] component_is_normal(p[i])
}

/// Decides `component_is_normal` for one component.
pub fn is_normal_component(c: &String) -> (r: bool)
    ensures
        r == component_is_normal(c@),
{
    let n = c.as_str().unicode_len();
    if n == 0 {
        return false;
    }
    if n == 1 && c.as_str().get_char(0) == '.' {
        proof {
            assert(c@ =~= seq!['.']);
        }
        return false;
    }
    if n == 2 && c.as_str().get_char(0) == '.' && c.as_str().get_char(1) == '.' {
        proof {
            assert(c@ =~= seq!['.', '.']);
        }
        return false;
    }
    proof {
        if c@ == seq!['.'] {
            assert(c@.len() == 1 && c@[0] == '.');
        }
        if c@ == seq!['.', '.'] {
            assert(c@.len() == 2 && c@[0] == '.' && c@[1] == '.');
        }
    }
    true
}

/// Copies a component path.
pub fn clone_path(p: &Vec<String>) -> (r: Vec<String>)
    ensures
        r@ == p@,
{
    let mut r: Vec<String> = Vec::new();
    let mut i: usize = 0;
    while i < p.len()
        invariant
            i <= p.len(),
            r@ == p@.take(i as int),
        decreases p.len() - i,
    {
        r.push(p[i].clone());
        i = i + 1;
    }
    proof {
        assert(p@.take(p@.len() as int) =~= p@);
    }
    r
}

/// Component paths are compared by their character contents.
pub fn path_eq(a: &Vec<String>, b: &Vec<String>) -> (r: bool)
    ensures
        r == (a.deep_view() == b.deep_view()),
{
    if a.len() != b.len() {
        proof {
            assert(a.deep_view().len() == a@.len());
            assert(b.deep_view().len() == b@.len());
        }
        return false;
    }
    let mut i: usize = 0;
    while i < a.len()
        invariant
            a@.len() == b@.len(),
            i <= a@.len(),
            forall|j: int| 0 <= j < i ==> #[trigger] a.deep_view()[j] == b.deep_view()[j],
        decreases a.len() - i,
    {
        if !(a[i] == b[i]) {
            proof {
                assert(a.deep_view()[i as int] == a@[i as int]@);
                assert(b.deep_view()[i as int] == b@[i as int]@);
            }
            return false;
        }
        i = i + 1;
    }
    proof {
        assert(a.deep_view() =~= b.deep_view());
    }
    true
}

/// Checks that a relative sub-path cannot escape the location root and
/// returns the full path of the scan scope: the root followed by the
/// sub-path.  A sub-path with an empty, `.` or `..` component is refused.
pub fn ensure_sub_path_is_in_location(
    location_path: &Vec<String>,
    sub_path: &Vec<String>,
) -> (r: Result<Vec<String>, FilePathError>)
    ensures
        sub_path_is_normal(sub_path.deep_view()) <==> r is Ok,
        r matches Ok(full) ==> full@ == location_path@ + sub_path@,
        r is Err ==> r == Err::<Vec<String>, FilePathError>(FilePathError::PathNotInLocation),
{
    let mut i: usize = 0;
    while i < sub_path.len()
        invariant
            i <= sub_path@.len(),
            forall|j: int| 0 <= j < i ==> component_is_normal(#[trigger] sub_path.deep_view()[j]),
        decreases sub_path.len() - i,
    {
        if !is_normal_component(&sub_path[i]) {
            proof {
                assert(sub_path.deep_view()[i as int] == sub_path@[i as int]@);
            }
            return Err(FilePathError::PathNotInLocation);
        }
        proof {
            assert(sub_path.deep_view()[i as int] == sub_path@[i as int]@);
        }
        i = i + 1;
    }
    let mut full = clone_path(location_path);
    let mut k: usize = 0;
    while k < sub_path.len()
        invariant
            k <= sub_path@.len(),
            full@ == location_path@ + sub_path@.take(k as int),
        decreases sub_path.len() - k,
    {
        full.push(sub_path[k].clone());
        proof {
            assert(location_path@ + sub_path@.take(k + 1) =~= (location_path@ + sub_path@.take(
                k as int,
            )).push(sub_path@[k as int]));
        }
        k = k + 1;
    }
    proof {
        assert(location_path@ + sub_path@.take(sub_path@.len() as int) =~= location_path@
            + sub_path@);
        assert(location_path@ + sub_path@.take(0) =~= location_path@);
    }
    Ok(full)
}

/// A location-relative representation of a filesystem path: the components
/// below the location root (empty for the root itself), together with
/// whether the path denotes a directory.
pub struct IsolatedFilePathData {
    pub location_id: u64,
    pub path: Vec<String>,
    pub is_dir: bool,
}

impl IsolatedFilePathData {
    /// The full path starts with the location root.
    pub open spec fn full_path_in_location(
        location_path: Seq<Seq<char>>,
        full_path: Seq<Seq<char>>,
    ) -> bool {
        &&& full_path.len() >= location_path.len()
        &&& full_path.take(location_path.len() as int) == location_path
    }

    /// Isolates `full_path` against the root `location_path`: strips the
    /// root and keeps the location-relative remainder.
    pub fn new(
        location_id: u64,
        location_path: &Vec<String>,
        full_path: &Vec<String>,
        is_dir: bool,
    ) -> (r: Result<Self, FilePathError>)
        ensures
            Self::full_path_in_location(location_path.deep_view(), full_path.deep_view())
                <==> r is Ok,
            r matches Ok(iso) ==> {
                &&& iso.location_id == location_id
                &&& iso.is_dir == is_dir
                &&& iso.path.deep_view() == full_path.deep_view().skip(
                    location_path.deep_view().len() as int,
                )
            },
            r is Err ==> r == Err::<Self, FilePathError>(FilePathError::PathNotInLocation),
    {
        proof {
            assert(location_path.deep_view().len() == location_path@.len());
            assert(full_path.deep_view().len() == full_path@.len());
        }
        if full_path.len() < location_path.len() {
            return Err(FilePathError::PathNotInLocation);
        }
        let mut i: usize = 0;
        while i < location_path.len()
            invariant
                full_path@.len() >= location_path@.len(),
                i <= location_path@.len(),
                forall|j: int| 0 <= j < i
                    ==> #[trigger] full_path.deep_view()[j] == location_path.deep_view()[j],
            decreases location_path.len() - i,
        {
            if !(full_path[i] == location_path[i]) {
                proof {
                    assert(full_path.deep_view()[i as int] == full_path@[i as int]@);
                    assert(location_path.deep_view()[i as int] == location_path@[i as int]@);
                    assert(full_path.deep_view().take(location_path.deep_view().len() as int)[
                        i as int] == full_path.deep_view()[i as int]);
                }
                return Err(FilePathError::PathNotInLocation);
            }
            i = i + 1;
        }
        let mut rel: Vec<String> = Vec::new();
        let mut k: usize = location_path.len();
        while k < full_path.len()
            invariant
                location_path@.len() <= k <= full_path@.len(),
                rel@ == full_path@.subrange(location_path@.len() as int, k as int),
            decreases full_path.len() - k,
        {
            rel.push(full_path[k].clone());
            proof {
                assert(full_path@.subrange(location_path@.len() as int, k + 1) =~= full_path@
                    .subrange(location_path@.len() as int, k as int).push(full_path@[k as int]));
            }
            k = k + 1;
        }
        proof {
            assert(full_path.deep_view().take(location_path.deep_view().len() as int)
                =~= location_path.deep_view());
            assert(rel.deep_view() =~= full_path.deep_view().skip(
                location_path.deep_view().len() as int,
            ));
        }
        Ok(
            IsolatedFilePathData {
                location_id,
                path: rel,
                is_dir,
            },
        )
    }

    /// The materialized-path key shared by all direct children of this
    /// directory; `None` when the path does not denote a directory.
    pub fn materialized_path_for_children(&self) -> (r: Option<Vec<String>>)
        ensures
            self.is_dir ==> (r matches Some(p) && p.deep_view() == self.path.deep_view()),
            !self.is_dir ==> r is None,
    {
        if self.is_dir {
            Some(clone_path(&self.path))
        } else {
            None
        }
    }
}

} // verus!
