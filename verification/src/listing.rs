//! The result of walking a root: the files found, and what indexing them
//! records.

use crate::hasher::fnv1a64_spec;
use vstd::prelude::*;

verus! {

/// One file that a walk of the root found: its absolute path, and its
/// bytes unless it was gone again when the walk tried to read it.
#[derive(Debug, Clone, PartialEq, Eq)]
pub struct ListedFile {
    pub path: String,
    pub contents: Option<Vec<u8>>,
}

/// What a `ListedFile` holds, as mathematical sequences.
pub struct ListedFileView {
    pub path: Seq<char>,
    pub contents: Option<Seq<u8>>,
}

impl View for ListedFile {
    type V = ListedFileView;

    open spec fn view(&self) -> ListedFileView {
        ListedFileView {
            path: self.path@,
            contents: match self.contents {
                Some(c) => Some(c@),
                None => None,
            },
        }
    }
}

/// The views of a listing, in order.
pub open spec fn listing_view(listing: Seq<ListedFile>) -> Seq<ListedFileView> {
    listing.map_values(|f: ListedFile| f@)
}

/// The paths of a listing, in order.
pub open spec fn listed_paths(listing: Seq<ListedFileView>) -> Seq<Seq<char>> {
    listing.map_values(|f: ListedFileView| f.path)
}

/// The hash of every listed file that could be read. Where a path is listed
/// twice, the later listing counts.
pub open spec fn listed_hashes(listing: Seq<ListedFileView>) -> Map<Seq<char>, u64>
    decreases listing.len(),
{
    if listing.len() == 0 {
        Map::empty()
    } else {
        let earlier = listed_hashes(listing.drop_last());
        match listing.last().contents {
            Some(c) => earlier.insert(listing.last().path, fnv1a64_spec(c)),
            None => earlier,
        }
    }
}

/// Every hashed path of a listing is one of its paths.
pub proof fn lemma_listed_hashes_are_listed(listing: Seq<ListedFileView>)
    ensures
        forall|p: Seq<char>|
            listed_hashes(listing).dom().contains(p) ==> #[trigger] listed_paths(
                listing,
            ).contains(p),
    decreases listing.len(),
{
    if listing.len() > 0 {
        let earlier = listing.drop_last();
        lemma_listed_hashes_are_listed(earlier);
        let paths = listed_paths(listing);
        assert forall|p: Seq<char>| listed_hashes(listing).dom().contains(p) implies paths.contains(
            p,
        ) by {
            if p == listing.last().path {
                assert(paths[listing.len() - 1] == p);
            } else {
                assert(listed_hashes(earlier).dom().contains(p));
                assert(listed_paths(earlier).contains(p));
                let i = choose|i: int| 0 <= i < earlier.len() && listed_paths(earlier)[i] == p;
                assert(paths[i] == p);
            }
        }
    }
}

} // verus!
