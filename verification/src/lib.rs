//! Content identification engine: classifies text, raw bytes and capture
//! streams against a catalog of named regex patterns with rarity and tag
//! metadata, filtered by a user-built predicate.

pub mod capture;
pub mod catalog;
pub mod extract;
pub mod filter;
pub mod identifier;
pub mod options;
pub mod sorter;
pub mod text;

use vstd::prelude::*;

verus! {

/// Pushing onto a vector pushes the element's deep view onto the vector's
/// deep view.
pub proof fn lemma_vec_deep_view_push<T: DeepView>(pre: Vec<T>, post: Vec<T>, x: T)
    requires
        post@ == pre@.push(x),
    ensures
        post.deep_view() == pre.deep_view().push(x.deep_view()),
{
    assert forall|j: int| 0 <= j < post.deep_view().len() implies post.deep_view()[j]
        == pre.deep_view().push(x.deep_view())[j] by {
        if j < pre@.len() {
            assert(post@[j] == pre@[j]);
        } else {
            assert(post@[j] == x);
        }
    }
    assert(post.deep_view() =~= pre.deep_view().push(x.deep_view()));
}

} // verus!
