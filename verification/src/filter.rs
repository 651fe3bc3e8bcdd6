//! A client-side text filtering pass. The filter list starts empty, and
//! filtering passes text through unchanged.
use vstd::prelude::*;

verus! {

/// The client-side text filters.
pub struct Filters {
    filters: Vec<String>,
}

impl Filters {
    /// The filter patterns currently held.
    pub closed spec fn spec_filters(&self) -> Seq<Seq<char>> {
        self.filters.deep_view()
    }

    /// An empty filter set.
    pub fn new() -> (r: Self)
        ensures
            r.spec_filters().len() == 0,
    {
        let r = Self { filters: vec![] };
        proof {
            assert(r.spec_filters() =~= Seq::<Seq<char>>::empty());
        }
        r
    }

    /// Applies the filters to a chat string; with no patterns held, the
    /// text passes through unchanged.
    pub fn filter_to_wimble_text(&self, string: String) -> (r: String)
        ensures
            r == string,
    {
        string
    }
}

} // verus!
