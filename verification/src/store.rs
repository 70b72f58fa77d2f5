//! The repository: an append-only list of records, counted and fetched
//! either as a whole or scoped to one author.

use crate::date::CalendarDate;
use crate::text::{lemma_trim_is_trimmed, text_of, trim, trimmed};
use vstd::prelude::*;

verus! {

/// Why a repository operation failed.
#[derive(Copy, Clone, PartialEq, Eq, Debug, Structural)]
pub enum StoreError {
    /// There is no record to pick from.
    EmptyCollection,
    /// The record could not be written.
    WriteFailed,
}

/// A stored quote or image: the payload is the quote's text or the image's
/// file reference.
pub struct Record {
    pub id: u64,
    pub payload: String,
    pub author: String,
    pub created_date: CalendarDate,
}

/// The mathematical content of a [`Record`].
pub struct RecordView {
    pub id: u64,
    pub payload: Seq<char>,
    pub author: Seq<char>,
    pub created_date: CalendarDate,
}

impl View for Record {
    type V = RecordView;

    open spec fn view(&self) -> RecordView {
        RecordView {
            id: self.id,
            payload: self.payload@,
            author: self.author@,
            created_date: self.created_date,
        }
    }
}

impl Record {
    /// A copy of the record.
    pub fn duplicate(&self) -> (copy: Record)
        ensures
            copy@ == self@,
    {
        Record {
            id: self.id,
            payload: self.payload.clone(),
            author: self.author.clone(),
            created_date: self.created_date,
        }
    }
}

/// Whether a record is within a scope: every record is within the scope of
/// no author, and an author's scope holds the records of that author.
pub open spec fn in_scope(record: RecordView, author: Option<Seq<char>>) -> bool {
    author matches Some(name) ==> record.author == name
}

/// The records within a scope, in the order they were stored.
pub open spec fn scoped(records: Seq<RecordView>, author: Option<Seq<char>>) -> Seq<RecordView>
    decreases records.len(),
{
    if records.len() == 0 {
        Seq::empty()
    } else if in_scope(records.last(), author) {
        scoped(records.drop_last(), author).push(records.last())
    } else {
        scoped(records.drop_last(), author)
    }
}

/// What holds of the records of every repository: identifiers count up from
/// 1 in the order of storing, so none occurs twice, and no payload begins
/// or ends with whitespace.
pub open spec fn well_formed(records: Seq<RecordView>) -> bool {
    forall|i: int|
        0 <= i < records.len() ==> (#[trigger] records[i]).id == i + 1 && trim(records[i].payload)
            == records[i].payload
}

/// Calls `rand::Rng::gen_range` on `rand::thread_rng()` with the range from
/// 0 up to, not including, `bound`. Trusted: the number drawn lies in that
/// range. Nothing else is claimed of it, and two calls may differ.
#[verifier::external_body]
fn random_below(bound: usize) -> (n: usize)
    requires
        bound > 0,
    ensures
        n < bound,
{
    rand::Rng::gen_range(&mut rand::thread_rng(), 0..bound)
}

/// An append-only repository of records.
pub struct Store {
    records: Vec<Record>,
}

impl View for Store {
    type V = Seq<RecordView>;

    closed spec fn view(&self) -> Seq<RecordView> {
        Seq::new(self.records@.len(), |i: int| self.records@[i]@)
    }
}

impl Store {
    /// An empty repository.
    pub fn new() -> (store: Self)
        ensures
            store@ == Seq::<RecordView>::empty(),
            well_formed(store@),
    {
        let store = Store { records: Vec::new() };
        assert(store@ =~= Seq::<RecordView>::empty());
        store
    }

    /// Whether the record at `i` is within the scope of `author`.
    fn holds(&self, i: usize, author: &Option<String>) -> (b: bool)
        requires
            i < self@.len(),
        ensures
            b == in_scope(self@[i as int], text_of(*author)),
    {
        match author {
            Some(name) => self.records[i].author == *name,
            None => true,
        }
    }

    /// The number of records within the scope of `author`.
    pub fn count(&self, author: &Option<String>) -> (n: usize)
        ensures
            n == scoped(self@, text_of(*author)).len(),
    {
        let ghost scope = text_of(*author);
        let mut n: usize = 0;
        let mut i: usize = 0;
        assert(self@.take(0) =~= Seq::<RecordView>::empty());
        while i < self.records.len()
            invariant
                i <= self.records.len(),
                self.records.len() == self@.len(),
                scope == text_of(*author),
                n <= i,
                n == scoped(self@.take(i as int), scope).len(),
            decreases self.records.len() - i,
        {
            assert(self@.take(i + 1).drop_last() =~= self@.take(i as int));
            if self.holds(i, author) {
                n += 1;
            }
            i += 1;
        }
        assert(self@.take(i as int) =~= self@);
        n
    }

    /// The record at position `n` within the scope of `author`, counted
    /// from 0; `None` if the scope holds no more than `n` records.
    pub fn nth(&self, author: &Option<String>, n: usize) -> (r: Option<Record>)
        ensures
            match r {
                Some(record) => n < scoped(self@, text_of(*author)).len() && record@ == scoped(
                    self@,
                    text_of(*author),
                )[n as int],
                None => n >= scoped(self@, text_of(*author)).len(),
            },
    {
        let ghost scope = text_of(*author);
        let mut seen: usize = 0;
        let mut i: usize = 0;
        assert(self@.take(0) =~= Seq::<RecordView>::empty());
        while i < self.records.len()
            invariant
                i <= self.records.len(),
                self.records.len() == self@.len(),
                scope == text_of(*author),
                seen <= i,
                seen <= n,
                seen == scoped(self@.take(i as int), scope).len(),
            decreases self.records.len() - i,
        {
            assert(self@.take(i + 1).drop_last() =~= self@.take(i as int));
            if self.holds(i, author) {
                if seen == n {
                    proof {
                        let part = scoped(self@.take(i + 1), scope);
                        lemma_scoped_prefix(self@, scope, i + 1);
                        assert(part[n as int] == self@[i as int]);
                        assert(scoped(self@, scope).subrange(0, part.len() as int)[n as int]
                            == part[n as int]);
                    }
                    return Some(self.records[i].duplicate());
                }
                seen += 1;
            }
            i += 1;
        }
        assert(self@.take(i as int) =~= self@);
        None
    }

    /// Stores a record with the payload trimmed and the next identifier,
    /// which it returns. It fails only when the repository cannot hold
    /// another record.
    pub fn insert(&mut self, author: &str, payload: &str, created_date: CalendarDate) -> (r: Result<
        u64,
        StoreError,
    >)
        ensures
            match r {
                Ok(id) => id == old(self)@.len() + 1 && final(self)@ == old(self)@.push(
                    RecordView {
                        id,
                        payload: trim(payload@),
                        author: author@,
                        created_date,
                    },
                ),
                Err(error) => error == StoreError::WriteFailed && final(self)@ == old(self)@,
            },
            r is Ok <==> old(self)@.len() < usize::MAX,
            r is Ok ==> scoped(final(self)@, Some(author@)).len() == scoped(
                old(self)@,
                Some(author@),
            ).len() + 1,
            well_formed(old(self)@) ==> well_formed(final(self)@),
    {
        if self.records.len() == usize::MAX {
            return Err(StoreError::WriteFailed);
        }
        let id: u64 = self.records.len() as u64 + 1;
        let record = Record {
            id,
            payload: trimmed(payload),
            author: author.to_owned(),
            created_date,
        };
        self.records.push(record);
        proof {
            lemma_trim_is_trimmed(payload@);
            assert(self@ =~= old(self)@.push(record@));
            lemma_count_after_insert(old(self)@, record@, Some(author@));
        }
        Ok(id)
    }

    /// One record within the scope of `author`, drawn uniformly at random.
    /// It fails exactly when the scope is empty.
    pub fn random_fetch(&self, author: &Option<String>) -> (r: Result<Record, StoreError>)
        ensures
            match r {
                Ok(record) => scoped(self@, text_of(*author)).contains(record@),
                Err(error) => error == StoreError::EmptyCollection && scoped(
                    self@,
                    text_of(*author),
                ).len() == 0,
            },
    {
        let total = self.count(author);
        if total == 0 {
            return Err(StoreError::EmptyCollection);
        }
        match self.nth(author, random_below(total)) {
            Some(record) => Ok(record),
            None => Err(StoreError::EmptyCollection),
        }
    }
}

/// The scope of the first `n` records is the beginning of the scope of all
/// of them.
pub proof fn lemma_scoped_prefix(records: Seq<RecordView>, author: Option<Seq<char>>, n: int)
    requires
        0 <= n <= records.len(),
    ensures
        scoped(records.take(n), author).is_prefix_of(scoped(records, author)),
    decreases records.len(),
{
    if n == records.len() {
        assert(records.take(n) =~= records);
    } else {
        lemma_scoped_prefix(records.drop_last(), author, n);
        assert(records.drop_last().take(n) =~= records.take(n));
    }
}

/// A record that was just stored counts once more in the scope of its
/// author and in the scope of all records, and in no other scope.
pub proof fn lemma_count_after_insert(
    records: Seq<RecordView>,
    record: RecordView,
    author: Option<Seq<char>>,
)
    ensures
        scoped(records.push(record), author).len() == scoped(records, author).len() + (if in_scope(
            record,
            author,
        ) {
            1nat
        } else {
            0nat
        }),
        scoped(records.push(record), Some(record.author)).len() == scoped(
            records,
            Some(record.author),
        ).len() + 1,
        scoped(records.push(record), None).len() == scoped(records, None).len() + 1,
{
    assert(records.push(record).drop_last() =~= records);
}

/// Every record of a scope is a record of the repository, within the
/// scope.
pub proof fn lemma_scoped_records(records: Seq<RecordView>, author: Option<Seq<char>>, i: int)
    requires
        0 <= i < scoped(records, author).len(),
    ensures
        records.contains(scoped(records, author)[i]),
        in_scope(scoped(records, author)[i], author),
    decreases records.len(),
{
    if records.len() > 0 {
        let before = scoped(records.drop_last(), author);
        if i < before.len() {
            lemma_scoped_records(records.drop_last(), author, i);
            let k = choose|k: int| 0 <= k < records.drop_last().len() && records.drop_last()[k] == before[i];
            assert(records[k] == before[i]);
        } else {
            assert(records[records.len() - 1] == records.last());
        }
    }
}

/// In a well-formed repository no identifier occurs twice, and identifiers
/// grow in the order of storing.
pub proof fn lemma_identifiers_grow(records: Seq<RecordView>, i: int, j: int)
    requires
        well_formed(records),
        0 <= i < j < records.len(),
    ensures
        records[i].id < records[j].id,
{
}

} // verus!
