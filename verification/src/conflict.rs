use vstd::prelude::*;

use crate::errors::Error;
use crate::text::contains_str;
use crate::text::views_of;

verus! {

/// Conflict freedom: no manifest path is already present under the install
/// root.
pub open spec fn no_conflict(manifest: Seq<Seq<char>>, present: Seq<Seq<char>>) -> bool {
    forall|i: int| 0 <= i < manifest.len() ==> !present.contains(#[trigger] manifest[i])
}

/// Compares a candidate manifest against the live install root, whose
/// existing paths are handed in as `present`: succeeds exactly when no
/// manifest path already exists there, and otherwise fails fast with the
/// first conflicting path in manifest order.
pub fn check(manifest: &Vec<String>, present: &Vec<String>) -> (r: Result<(), Error>)
    ensures
        r is Ok <==> no_conflict(views_of(manifest@), views_of(present@)),
        r matches Err(e) ==> exists|i: int|
            {
                &&& 0 <= i < manifest@.len()
                &&& e == Error::FileConflict(manifest@[i])
                &&& views_of(present@).contains(manifest@[i]@)
                &&& forall|j: int|
                    0 <= j < i ==> !views_of(present@).contains((#[trigger] manifest@[j])@)
            },
{
    let mut i: usize = 0;
    while i < manifest.len()
        invariant
            i <= manifest@.len(),
            forall|j: int|
                0 <= j < i ==> !views_of(present@).contains((#[trigger] manifest@[j])@),
        decreases manifest@.len() - i,
    {
        if contains_str(present, &manifest[i]) {
            let ghost w = i as int;
            let conflict = manifest[i].clone();
            proof {
                assert(conflict == manifest@[w]);
                assert(views_of(manifest@)[w] == manifest@[w]@);
                assert(!no_conflict(views_of(manifest@), views_of(present@)));
            }
            return Err(Error::FileConflict(conflict));
        }
        i += 1;
    }
    proof {
        assert forall|k: int| 0 <= k < views_of(manifest@).len() implies !views_of(
            present@,
        ).contains(#[trigger] views_of(manifest@)[k]) by {
            assert(views_of(manifest@)[k] == manifest@[k]@);
        }
    }
    Ok(())
}

} // verus!
