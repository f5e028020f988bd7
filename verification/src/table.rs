//! The job registry: an insertion-ordered map from job identifier to job state.

use vstd::prelude::*;
use indexmap::IndexMap;
use crate::item::Item;
use crate::progress::{JobState, Progress};
use crate::registry::{
    advanced, announced, canceled_of, distinct_ids, fits, inserted, lemma_inserted_distinct,
    lemma_removed_distinct, lemma_replaced_distinct, listed, removed, replaced, state_of, stopped,
};

verus! {

/// `indexmap::IndexMap`, a hash map that keeps its pairs in a sequence.
/// Nothing inside it is visible here; what it holds is `map_entries`.
#[verifier::external_type_specification]
#[verifier::external_body]
#[verifier::reject_recursive_types(K)]
#[verifier::reject_recursive_types(V)]
#[verifier::reject_recursive_types(S)]
pub struct ExIndexMap<K, V, S>(IndexMap<K, V, S>);

/// The pairs that a map holds, in the map's order, each key and value by its view.
pub uninterp spec fn map_entries(m: IndexMap<String, Progress>) -> Seq<(Seq<char>, JobState)>;

/// `IndexMap::new`: the map that it returns holds nothing.
#[verifier::external_body]
fn map_new() -> (m: IndexMap<String, Progress>)
    ensures
        map_entries(m) == Seq::<(Seq<char>, JobState)>::empty(),
{
    IndexMap::new()
}

/// `IndexMap::len`: the number of pairs in the map.
#[verifier::external_body]
fn map_len(m: &IndexMap<String, Progress>) -> (n: usize)
    ensures
        n == map_entries(*m).len(),
{
    m.len()
}

/// `IndexMap::get_index`: the pair at position `i` of the map's order, and
/// nothing from the map's length on.
#[verifier::external_body]
fn map_get_index(m: &IndexMap<String, Progress>, i: usize) -> (r: Option<(&String, &Progress)>)
    ensures
        r is Some == (i < map_entries(*m).len()),
        r is Some ==> (r.unwrap().0@, r.unwrap().1@) == map_entries(*m)[i as int],
{
    m.get_index(i)
}

/// `IndexMap::get`: the value stored under a key equal to `id`, if there is one.
#[verifier::external_body]
fn map_get<'a>(m: &'a IndexMap<String, Progress>, id: &str) -> (r: Option<&'a Progress>)
    ensures
        r is Some == listed(map_entries(*m), id@),
        r is Some ==> r.unwrap()@ == state_of(map_entries(*m), id@),
{
    m.get(id)
}

/// `IndexMap::get_mut`: a mutable reference to the value stored under a key
/// equal to `id`, if there is one. What the caller writes through it becomes
/// that pair's value; nothing else in the map changes.
#[verifier::external_body]
fn map_get_mut<'a>(m: &'a mut IndexMap<String, Progress>, id: &str) -> (r: Option<
    &'a mut Progress,
>)
    ensures
        r is Some == listed(map_entries(*old(m)), id@),
        r is None ==> map_entries(*final(m)) == map_entries(*old(m)),
        r is Some ==> (*r.unwrap())@ == state_of(map_entries(*old(m)), id@),
        r is Some ==> map_entries(*final(m)) == replaced(
            map_entries(*old(m)),
            id@,
            (*final(r.unwrap()))@,
        ),
{
    m.get_mut(id)
}

/// `IndexMap::insert`: where a key equal to `id` is present, its pair keeps
/// its place and takes the new value; otherwise the new pair comes last.
#[verifier::external_body]
fn map_insert(m: &mut IndexMap<String, Progress>, id: String, pg: Progress)
    ensures
        map_entries(*final(m)) == inserted(map_entries(*old(m)), id@, pg@),
{
    m.insert(id, pg);
}

/// `IndexMap::shift_remove`: removes the pair whose key equals `id` and
/// returns its value; the pairs behind it move up and keep their order.
/// Without such a key the map is unchanged and nothing is returned.
#[verifier::external_body]
fn map_shift_remove(m: &mut IndexMap<String, Progress>, id: &str) -> (r: Option<Progress>)
    ensures
        map_entries(*final(m)) == removed(map_entries(*old(m)), id@),
        r is Some == listed(map_entries(*old(m)), id@),
        r is Some ==> r.unwrap()@ == state_of(map_entries(*old(m)), id@),
{
    m.shift_remove(id)
}

/// `Uuid::new_v4` and `Uuid::to_string`: a random identifier in its
/// hyphenated lower-case form. Which identifier comes is not said, only its shape.
#[verifier::external_body]
fn new_v4_string() -> (id: String)
    ensures
        is_uuid_v4(id@),
{
    uuid::Uuid::new_v4().to_string()
}

/// Whether `c` is a hexadecimal digit in lower case.
pub open spec fn is_lower_hex(c: char) -> bool {
    ('0' <= c && c <= '9') || ('a' <= c && c <= 'f')
}

/// The shape of a random (version 4) identifier: 36 characters, hyphens
/// after the 8th, 12th, 16th and 20th hexadecimal digit, the version digit
/// `4` and a variant digit among `8`, `9`, `a`, `b`.
pub open spec fn is_uuid_v4(id: Seq<char>) -> bool {
    &&& id.len() == 36
    &&& forall|i: int|
        0 <= i < 36 ==> if i == 8 || i == 13 || i == 18 || i == 23 {
            #[trigger] id[i] == '-'
        } else {
            is_lower_hex(id[i])
        }
    &&& id[14] == '4'
    &&& (id[19] == '8' || id[19] == '9' || id[19] == 'a' || id[19] == 'b')
}

/// The registry of the jobs that are being transferred.
///
/// It keeps the jobs in the order in which they were registered. A caller
/// that shares it between transfers guards it with one lock and holds the
/// lock for one call at a time.
pub struct Table(IndexMap<String, Progress>);

impl View for Table {
    type V = Seq<(Seq<char>, JobState)>;

    closed spec fn view(&self) -> Seq<(Seq<char>, JobState)> {
        map_entries(self.0)
    }
}

impl Table {
    /// No identifier names two jobs.
    #[verifier::type_invariant]
    pub open spec fn well_formed(self) -> bool {
        distinct_ids(self@)
    }

    /// An empty registry.
    pub fn new() -> (t: Table)
        ensures
            t@ == Seq::<(Seq<char>, JobState)>::empty(),
    {
        Table(map_new())
    }

    /// Mints a job identifier: a random 128-bit value in its canonical
    /// 36-character form.
    pub fn generate_id() -> (id: String)
        ensures
            is_uuid_v4(id@),
    {
        new_v4_string()
    }

    /// Registers the job `id` with state `pg`. A job already registered under
    /// `id` keeps its place and takes the new state.
    pub fn add(&mut self, id: &str, pg: Progress)
        ensures
            final(self)@ == inserted(old(self)@, id@, pg@),
            distinct_ids(final(self)@),
    {
        proof {
            use_type_invariant(&*self);
            lemma_inserted_distinct(self@, id@, pg@);
        }
        let mut m = map_new();
        std::mem::swap(&mut m, &mut self.0);
        map_insert(&mut m, id.to_owned(), pg);
        self.0 = m;
    }

    /// Mints an identifier and registers under it a job named `name` that
    /// has received nothing yet. Returns the identifier.
    pub fn create(&mut self, name: &str) -> (id: String)
        ensures
            is_uuid_v4(id@),
            final(self)@ == inserted(old(self)@, id@, JobState::fresh(name@)),
            distinct_ids(final(self)@),
    {
        let id = Table::generate_id();
        self.add(id.as_str(), Progress::new(name.to_owned()));
        id
    }

    /// Removes the job `id` and returns its state; an unknown `id` changes
    /// nothing and returns nothing.
    pub fn delete(&mut self, id: &str) -> (r: Option<Progress>)
        ensures
            final(self)@ == removed(old(self)@, id@),
            distinct_ids(final(self)@),
            r is Some == listed(old(self)@, id@),
            r is Some ==> r.unwrap()@ == state_of(old(self)@, id@),
    {
        proof {
            use_type_invariant(&*self);
            lemma_removed_distinct(self@, id@);
        }
        let mut m = map_new();
        std::mem::swap(&mut m, &mut self.0);
        let r = map_shift_remove(&mut m, id);
        self.0 = m;
        r
    }

    /// Records the expected length of the job `id`; an unknown `id` is ignored.
    pub fn set_total(&mut self, id: &str, total: u64)
        ensures
            final(self)@ == announced(old(self)@, id@, total),
            distinct_ids(final(self)@),
    {
        proof {
            use_type_invariant(&*self);
            lemma_replaced_distinct(self@, id@, state_of(self@, id@).with_total(total));
        }
        let mut m = map_new();
        std::mem::swap(&mut m, &mut self.0);
        match map_get_mut(&mut m, id) {
            Some(pg) => {
                pg.set_total(total);
            },
            None => {},
        }
        self.0 = m;
    }

    /// Counts `n` more received bytes for the job `id`; an unknown `id` is ignored.
    pub fn progress(&mut self, id: &str, n: u64)
        requires
            fits(old(self)@, id@, n),
        ensures
            final(self)@ == advanced(old(self)@, id@, n),
            distinct_ids(final(self)@),
    {
        proof {
            use_type_invariant(&*self);
            lemma_replaced_distinct(self@, id@, state_of(self@, id@).advanced(n));
        }
        let mut m = map_new();
        std::mem::swap(&mut m, &mut self.0);
        match map_get_mut(&mut m, id) {
            Some(pg) => {
                pg.progress(n);
            },
            None => {},
        }
        self.0 = m;
    }

    /// Whether `n` more bytes can be counted for the job `id` in 64 bits;
    /// always for an unknown `id`.
    pub fn fits(&self, id: &str, n: u64) -> (b: bool)
        ensures
            b == fits(self@, id@, n),
    {
        match map_get(&self.0, id) {
            Some(pg) => n <= u64::MAX - pg.size,
            None => true,
        }
    }

    /// Whether the job `id` is canceled; `None` where no such job is
    /// registered. A transfer that reads `None` stops as if it read `true`.
    pub fn is_canceled(&self, id: &str) -> (r: Option<bool>)
        ensures
            r == canceled_of(self@, id@),
    {
        match map_get(&self.0, id) {
            Some(pg) => Some(pg.is_canceled()),
            None => None,
        }
    }

    /// Marks the job `id` as canceled; an unknown `id` is ignored.
    pub fn cancel(&mut self, id: &str)
        ensures
            final(self)@ == stopped(old(self)@, id@),
            distinct_ids(final(self)@),
    {
        proof {
            use_type_invariant(&*self);
            lemma_replaced_distinct(self@, id@, state_of(self@, id@).stopped());
        }
        let mut m = map_new();
        std::mem::swap(&mut m, &mut self.0);
        match map_get_mut(&mut m, id) {
            Some(pg) => {
                pg.cancel();
            },
            None => {},
        }
        self.0 = m;
    }

    /// A snapshot of all jobs, in the order in which they were registered.
    pub fn to_vec(&self) -> (items: Vec<Item>)
        ensures
            items@.map_values(|item: Item| item@) == self@,
    {
        let n = map_len(&self.0);
        let mut items: Vec<Item> = Vec::new();
        let mut i: usize = 0;
        while i < n
            invariant
                n == map_entries(self.0).len(),
                i <= n,
                items@.len() == i,
                forall|k: int| 0 <= k < i ==> (#[trigger] items@[k])@ == map_entries(self.0)[k],
            decreases n - i,
        {
            match map_get_index(&self.0, i) {
                Some((id, pg)) => {
                    items.push(Item::from_progress(id.clone(), pg));
                },
                None => {},
            }
            i = i + 1;
        }
        assert(items@.map_values(|item: Item| item@) =~= self@);
        items
    }
}

} // verus!
