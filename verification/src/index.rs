//! The staging index: a map from repository-relative paths to the
//! recorded object hash, a filesystem-metadata snapshot, and a merge
//! role.  Change detection goes by the metadata snapshot alone: an entry
//! whose snapshot is unchanged is left untouched and its content is never
//! re-hashed, a deliberate tradeoff.

use vstd::prelude::*;

use crate::db::{
    deflate_of, inflate_of, insert, object_id, store_spec, DbError, ObjectRepr, ObjectType,
};
use crate::paths::RelativePathToBase;
use vstd::pervasive::VecAdditionalExecFns;

verus! {

/// Failure of an index operation.
#[derive(Debug)]
pub enum IndexError {
    /// The persisted index could not be loaded.
    ReadError { msg: String },
    /// The index could not be written.
    WriteError { msg: String },
    /// The persisted index's structure is malformed, or the in-memory
    /// index could not be serialized.
    SerializationError { msg: String },
    /// The file's metadata snapshot could not be taken.
    MetadataError { msg: String },
}

/// The role a staged version plays during a merge; only `Regular` is ever
/// assigned in scope, the others are data-shape placeholders.
#[derive(Clone, Copy, Debug, PartialEq, Eq, Structural)]
pub enum MergeStatus {
    Regular,
    CommonAncestor,
    Head,
    MergeHead,
}

/// A filesystem-metadata snapshot: creation time, modification time
/// (both in nanoseconds since the epoch) and byte size.
#[derive(Clone, Copy, Debug, PartialEq, Eq, Structural)]
pub struct Metadata {
    pub c_time: u128,
    pub m_time: u128,
    pub size: u64,
}

impl Metadata {
    pub fn new(c_time: u128, m_time: u128, size: u64) -> (r: Metadata)
        ensures
            r == (Metadata { c_time, m_time, size }),
    {
        Metadata { c_time, m_time, size }
    }
}

/// One staging entry: snapshot, merge role, and the identifier of the
/// content last hashed for this path.
#[derive(Debug)]
pub struct IndexEntry {
    pub metadata: Metadata,
    pub status: MergeStatus,
    pub hash: ObjectRepr,
}

impl View for IndexEntry {
    type V = (MergeStatus, Metadata, Seq<char>);

    open spec fn view(&self) -> (MergeStatus, Metadata, Seq<char>) {
        (self.status, self.metadata, self.hash@)
    }
}

impl IndexEntry {
    pub fn new(status: MergeStatus, hash: ObjectRepr, metadata: Metadata) -> (r: IndexEntry)
        ensures
            r@ == (status, metadata, hash@),
    {
        IndexEntry { metadata, status, hash }
    }

    /// Whether the file changed since this entry was recorded: any
    /// difference in the metadata snapshot counts, nothing else does.
    pub fn changed(&self, new_metadata: &Metadata) -> (r: bool)
        ensures
            r == (self.metadata != new_metadata),
    {
        !(self.metadata == *new_metadata)
    }
}

/// The staging map.  Keys are unique; insertion order is irrelevant, and
/// the view is the map from each key to its entry.
#[derive(Debug)]
pub struct Index {
    entries: Vec<(RelativePathToBase, IndexEntry)>,
}

/// The map an entry list denotes; later entries would win, and the
/// well-formed index keeps its keys unique.
pub open spec fn entries_map(s: Seq<(RelativePathToBase, IndexEntry)>) -> Map<
    Seq<char>,
    (MergeStatus, Metadata, Seq<char>),
>
    decreases s.len(),
{
    if s.len() == 0 {
        Map::empty()
    } else {
        entries_map(s.drop_last()).insert(s.last().0@, s.last().1@)
    }
}

impl View for Index {
    type V = Map<Seq<char>, (MergeStatus, Metadata, Seq<char>)>;

    closed spec fn view(&self) -> Map<Seq<char>, (MergeStatus, Metadata, Seq<char>)> {
        entries_map(self.entries@)
    }
}

proof fn lemma_map_present(s: Seq<(RelativePathToBase, IndexEntry)>, i: int)
    requires
        0 <= i < s.len(),
        forall|j: int| i < j < s.len() ==> s[j].0@ != s[i].0@,
    ensures
        entries_map(s).contains_key(s[i].0@),
        entries_map(s)[s[i].0@] == s[i].1@,
    decreases s.len(),
{
    if i < s.len() - 1 {
        lemma_map_present(s.drop_last(), i);
    }
}

proof fn lemma_map_absent(s: Seq<(RelativePathToBase, IndexEntry)>, key: Seq<char>)
    requires
        forall|j: int| 0 <= j < s.len() ==> s[j].0@ != key,
    ensures
        !entries_map(s).contains_key(key),
    decreases s.len(),
{
    if s.len() > 0 {
        lemma_map_absent(s.drop_last(), key);
    }
}

proof fn lemma_map_push(s: Seq<(RelativePathToBase, IndexEntry)>, x: (RelativePathToBase, IndexEntry))
    ensures
        entries_map(s.push(x)) == entries_map(s).insert(x.0@, x.1@),
{
    assert(s.push(x).drop_last() =~= s);
}

proof fn lemma_map_update(
    s: Seq<(RelativePathToBase, IndexEntry)>,
    i: int,
    x: (RelativePathToBase, IndexEntry),
)
    requires
        0 <= i < s.len(),
        x.0@ == s[i].0@,
        forall|j: int| i < j < s.len() ==> s[j].0@ != s[i].0@,
    ensures
        entries_map(s.update(i, x)) == entries_map(s).insert(x.0@, x.1@),
    decreases s.len(),
{
    let t = s.update(i, x);
    if i == s.len() - 1 {
        assert(t.drop_last() =~= s.drop_last());
        assert(t.last() == x);
        assert(entries_map(s.drop_last()).insert(s[i].0@, s[i].1@).insert(x.0@, x.1@) =~= entries_map(
            s.drop_last(),
        ).insert(x.0@, x.1@));
    } else {
        assert(t.drop_last() =~= s.drop_last().update(i, x));
        assert(t.last() == s.last());
        lemma_map_update(s.drop_last(), i, x);
        // the two inserted keys differ, so the inserts commute
        assert(entries_map(s.drop_last()).insert(x.0@, x.1@).insert(s.last().0@, s.last().1@) =~= entries_map(
            s.drop_last(),
        ).insert(s.last().0@, s.last().1@).insert(x.0@, x.1@));
    }
}

impl Index {
    /// Keys are unique: one entry per path.
    pub open spec fn wf(self) -> bool {
        forall|i: int, j: int|
            0 <= i < j < self.entries_seq().len() ==> self.entries_seq()[i].0@
                != self.entries_seq()[j].0@
    }

    /// The entry list behind the map.
    pub closed spec fn entries_seq(self) -> Seq<(RelativePathToBase, IndexEntry)> {
        self.entries@
    }

    /// The empty index.
    pub fn new() -> (r: Index)
        ensures
            r@ == Map::<Seq<char>, (MergeStatus, Metadata, Seq<char>)>::empty(),
            r.wf(),
    {
        Index { entries: Vec::new() }
    }

    fn position_of(&self, key: &RelativePathToBase) -> (r: Option<usize>)
        ensures
            r matches Some(i) ==> i < self.entries_seq().len() && self.entries_seq()[i as int].0@
                == key@,
            r is None ==> forall|i: int|
                0 <= i < self.entries_seq().len() ==> self.entries_seq()[i].0@ != key@,
    {
        let n = self.entries.len();
        let mut i: usize = 0;
        while i < n
            invariant
                i <= n,
                n == self.entries@.len(),
                forall|j: int| 0 <= j < i ==> self.entries@[j].0@ != key@,
            decreases n - i,
        {
            if self.entries[i].0.key_eq(key) {
                return Some(i);
            }
            i = i + 1;
        }
        None
    }

    /// Looks a path's entry up.
    pub fn get(&self, key: &RelativePathToBase) -> (r: Option<&IndexEntry>)
        requires
            self.wf(),
        ensures
            r matches Some(e) ==> self@.contains_key(key@) && self@[key@] == e@,
            r is None ==> !self@.contains_key(key@),
    {
        match self.position_of(key) {
            Some(i) => {
                proof {
                    lemma_map_present(self.entries@, i as int);
                }
                Some(&self.entries[i].1)
            },
            None => {
                proof {
                    lemma_map_absent(self.entries@, key@);
                }
                None
            },
        }
    }

    /// Creates or replaces a path's entry.
    pub fn set_entry(&mut self, key: RelativePathToBase, entry: IndexEntry)
        requires
            old(self).wf(),
        ensures
            final(self).wf(),
            final(self)@ == old(self)@.insert(key@, entry@),
    {
        let ghost gkey = key@;
        let ghost gentry = entry@;
        match self.position_of(&key) {
            Some(i) => {
                proof {
                    lemma_map_update(self.entries@, i as int, (key, entry));
                }
                self.entries.set(i, (key, entry));
                proof {
                    let s = old(self).entries_seq();
                    let t = self.entries@;
                    assert(t =~= s.update(i as int, (key, entry)));
                    assert forall|p: int, q: int| 0 <= p < q < t.len() implies t[p].0@
                        != t[q].0@ by {
                        assert(s[p].0@ != s[q].0@);
                    }
                }
            },
            None => {
                proof {
                    lemma_map_push(self.entries@, (key, entry));
                }
                self.entries.push((key, entry));
                proof {
                    let s = old(self).entries_seq();
                    let t = self.entries@;
                    assert(t =~= s.push((key, entry)));
                    assert forall|p: int, q: int| 0 <= p < q < t.len() implies t[p].0@
                        != t[q].0@ by {
                        if q < s.len() {
                            assert(s[p].0@ != s[q].0@);
                        } else {
                            assert(s[p].0@ != gkey);
                        }
                    }
                }
            },
        }
    }

    /// The entry list, for persisting the index wholesale.  Under
    /// well-formedness it carries exactly the map, one entry per key.
    pub fn entries(&self) -> (r: &Vec<(RelativePathToBase, IndexEntry)>)
        ensures
            r@ == self.entries_seq(),
            entries_map(r@) == self@,
    {
        &self.entries
    }

    /// Records a change for a path unconditionally: the content is framed,
    /// hashed and compressed as a `Blob`, and the entry is created or
    /// replaced.  The returned compressed bytes are what the caller
    /// persists at the identifier's object path.
    pub fn add_change_helper(
        &mut self,
        status: MergeStatus,
        key: RelativePathToBase,
        metadata: Metadata,
        content: &[u8],
    ) -> (r: Result<(ObjectRepr, Vec<u8>), DbError>)
        requires
            old(self).wf(),
        ensures
            final(self).wf(),
            r is Ok,
            r matches Ok(p) ==> final(self)@ == old(self)@.insert(
                key@,
                (status, metadata, object_id(content@, ObjectType::Blob)),
            ) && p.0@ == object_id(content@, ObjectType::Blob) && p.1@ == deflate_of(
                store_spec(content@, ObjectType::Blob),
            ) && inflate_of(p.1@) == Some(store_spec(content@, ObjectType::Blob)),
    {
        let (repr, bytes) = match insert(content, ObjectType::Blob) {
            Ok(p) => p,
            Err(e) => {
                return Err(e);
            },
        };
        let entry = IndexEntry::new(status, repr.clone(), metadata);
        self.set_entry(key, entry);
        Ok((repr, bytes))
    }

    /// Stages a path: a new path, or one whose metadata snapshot differs
    /// from the recorded one, is re-inserted (hash, role and snapshot are
    /// all overwritten, and the compressed object bytes are returned for
    /// the caller to persist).  A path whose snapshot is unchanged is a
    /// no-op: nothing is re-hashed and the entry keeps its identifier.
    pub fn add_change(
        &mut self,
        status: MergeStatus,
        key: RelativePathToBase,
        metadata: Metadata,
        content: &[u8],
    ) -> (r: Result<Option<(ObjectRepr, Vec<u8>)>, DbError>)
        requires
            old(self).wf(),
        ensures
            final(self).wf(),
            r is Ok,
            old(self)@.contains_key(key@) && old(self)@[key@].1 == metadata ==> (r matches Ok(o)
                && o is None && final(self)@ == old(self)@),
            !(old(self)@.contains_key(key@) && old(self)@[key@].1 == metadata) ==> (r matches Ok(o)
                && o matches Some(p) && final(self)@ == old(self)@.insert(
                key@,
                (status, metadata, object_id(content@, ObjectType::Blob)),
            ) && p.0@ == object_id(content@, ObjectType::Blob) && p.1@ == deflate_of(
                store_spec(content@, ObjectType::Blob),
            ) && inflate_of(p.1@) == Some(store_spec(content@, ObjectType::Blob))),
    {
        let unchanged = match self.get(&key) {
            Some(entry) => !entry.changed(&metadata),
            None => false,
        };
        if unchanged {
            return Ok(None);
        }
        match self.add_change_helper(status, key, metadata, content) {
            Ok(p) => Ok(Some(p)),
            Err(e) => Err(e),
        }
    }
}

} // verus!
