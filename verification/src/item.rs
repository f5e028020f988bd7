//! The read-only projection of a job for listings.

use vstd::prelude::*;
use crate::progress::{JobState, Progress};

verus! {

/// A snapshot of one job: its identifier and a copy of its state.
///
/// Equality and order go by the fields in the order written here.
#[derive(Debug, Clone, PartialEq, Eq, PartialOrd, Ord)]
pub struct Item {
    pub id: String,
    pub name: String,
    pub total: Option<u64>,
    pub size: u64,
    pub canceled: bool,
}

impl View for Item {
    type V = (Seq<char>, JobState);

    open spec fn view(&self) -> (Seq<char>, JobState) {
        (
            self.id@,
            JobState {
                name: self.name@,
                total: self.total,
                size: self.size,
                canceled: self.canceled,
            },
        )
    }
}

impl Item {
    /// The snapshot of the job `id` whose state is `pg`.
    pub fn from_progress(id: String, pg: &Progress) -> (item: Item)
        ensures
            item@ == (id@, pg@),
    {
        Item {
            id,
            name: pg.name.clone(),
            total: pg.total,
            size: pg.size,
            canceled: pg.canceled,
        }
    }
}

} // verus!
