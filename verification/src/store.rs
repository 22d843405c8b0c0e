//! The note store: the single source of truth mapping note ids to notes.
//!
//! A store is a vector of notes with pairwise distinct ids, seen in the
//! contracts as the map from id to note.  An upsert replaces the whole
//! record under its id atomically — the caller serializes mutations; a
//! reader holding the store between mutations sees, for every id, either
//! the record as it was or the record as the upsert left it, never a
//! mixture.
use vstd::prelude::*;

use crate::bytes::{eq_bytes, subvec};
use crate::model::{Link, LinkV, NodeInfo, Note};

verus! {

/// The map a list of notes stands for: later entries override earlier
/// ones; with distinct ids, each entry is the value of its own id.
pub open spec fn entries_map(s: Seq<Note>) -> Map<Seq<u8>, Note>
    decreases s.len(),
{
    if s.len() == 0 {
        Map::empty()
    } else {
        entries_map(s.drop_last()).insert(s.last().slug@, s.last())
    }
}

/// All ids of `s` are pairwise distinct.
pub open spec fn unique_slugs(s: Seq<Note>) -> bool {
    forall|i: int, j: int|
        0 <= i < j < s.len() ==> (#[trigger] s[i]).slug@ != (#[trigger] s[j]).slug@
}

/// How many entries of `s` carry the id `k`.
pub open spec fn count_slug(s: Seq<Note>, k: Seq<u8>) -> int
    decreases s.len(),
{
    if s.len() == 0 {
        0
    } else {
        count_slug(s.drop_last(), k) + if s.last().slug@ == k {
            1int
        } else {
            0int
        }
    }
}

/// With distinct ids, the map of a list holds exactly the notes of the
/// list, each under its own id.
pub proof fn lemma_entries_map(s: Seq<Note>)
    requires
        unique_slugs(s),
    ensures
        forall|k: Seq<u8>|
            entries_map(s).contains_key(k) <==> exists|i: int|
                0 <= i < s.len() && (#[trigger] s[i]).slug@ == k,
        forall|i: int|
            0 <= i < s.len() ==> entries_map(s)[(#[trigger] s[i]).slug@] == s[i],
    decreases s.len(),
{
    if s.len() > 0 {
        assert(unique_slugs(s.drop_last())) by {
            assert(forall|i: int, j: int|
                0 <= i < j < s.len() - 1 ==> (#[trigger] s.drop_last()[i]).slug@ != (
                #[trigger] s.drop_last()[j]).slug@) by {
                assert(forall|i: int| 0 <= i < s.len() - 1 ==> s.drop_last()[i] == s[i]);
            }
        }
        lemma_entries_map(s.drop_last());
        assert forall|i: int| 0 <= i < s.len() implies entries_map(s)[(#[trigger] s[i]).slug@]
            == s[i] by {
            if i < s.len() - 1 {
                assert(s.drop_last()[i] == s[i]);
                assert(s[i].slug@ != s.last().slug@);
            }
        }
        assert forall|k: Seq<u8>| entries_map(s).contains_key(k) implies exists|i: int|
            0 <= i < s.len() && (#[trigger] s[i]).slug@ == k by {
            if k != s.last().slug@ {
                assert(entries_map(s.drop_last()).contains_key(k));
                let i = choose|i: int|
                    0 <= i < s.drop_last().len() && (#[trigger] s.drop_last()[i]).slug@ == k;
                assert(s[i] == s.drop_last()[i]);
                assert(s[i].slug@ == k);
            } else {
                assert(s[s.len() - 1].slug@ == k);
            }
        }
        assert forall|k: Seq<u8>|
            (exists|i: int| 0 <= i < s.len() && (#[trigger] s[i]).slug@ == k) implies entries_map(
            s,
        ).contains_key(k) by {
            let i = choose|i: int| 0 <= i < s.len() && (#[trigger] s[i]).slug@ == k;
            if i < s.len() - 1 {
                assert(s.drop_last()[i].slug@ == k);
            }
        }
    }
}

/// With distinct ids, no id occurs twice: the count of an id is one
/// exactly when the map holds it.
pub proof fn lemma_count_slug(s: Seq<Note>, k: Seq<u8>)
    requires
        unique_slugs(s),
    ensures
        0 <= count_slug(s, k) <= 1,
        count_slug(s, k) == 1 <==> entries_map(s).contains_key(k),
    decreases s.len(),
{
    if s.len() > 0 {
        assert(unique_slugs(s.drop_last())) by {
            assert(forall|i: int| 0 <= i < s.len() - 1 ==> s.drop_last()[i] == s[i]);
        }
        lemma_count_slug(s.drop_last(), k);
        if s.last().slug@ == k {
            lemma_entries_map(s.drop_last());
            if entries_map(s.drop_last()).contains_key(k) {
                let i = choose|i: int|
                    0 <= i < s.len() - 1 && (#[trigger] s.drop_last()[i]).slug@ == k;
                assert(s[i].slug@ == k);
                assert(s[i].slug@ != s[s.len() - 1].slug@);
            }
        }
    }
}

/// The links of the public notes of `s`, as their contents, in store
/// order.
pub open spec fn public_links(s: Seq<Note>) -> Seq<LinkV>
    decreases s.len(),
{
    if s.len() == 0 {
        Seq::empty()
    } else {
        public_links(s.drop_last()) + if s.last().public {
            s.last().data.links@.map_values(|l: Link| l@)
        } else {
            Seq::empty()
        }
    }
}

/// Why a point read returns no note: the id is unknown, or the note is
/// private and the policy hides it.
#[derive(Clone, Copy, Debug, PartialEq, Eq)]
pub enum QueryError {
    Forbidden,
    NotFound,
}

/// The shared mapping from note id to note.
pub struct NoteStore {
    entries: Vec<Note>,
}

impl NoteStore {
    /// The store seen as the map from note id to note.
    pub closed spec fn view(&self) -> Map<Seq<u8>, Note> {
        entries_map(self.entries@)
    }

    /// The notes of the store, in insertion order.
    pub closed spec fn spec_entries(&self) -> Seq<Note> {
        self.entries@
    }

    /// Well-formed: ids are pairwise distinct.
    pub closed spec fn wf(&self) -> bool {
        unique_slugs(self.entries@)
    }

    /// An empty store.
    pub fn new() -> (s: NoteStore)
        ensures
            s.wf(),
            s@ == Map::<Seq<u8>, Note>::empty(),
            s.spec_entries() == Seq::<Note>::empty(),
    {
        NoteStore { entries: Vec::new() }
    }

    /// How many notes the store holds.
    pub fn len(&self) -> (n: usize)
        ensures
            n == self.spec_entries().len(),
    {
        self.entries.len()
    }

    /// Inserts a note, replacing as a whole any note with the same id:
    /// the entry that carried the id is overwritten in place, or the note
    /// is appended when the id is new.
    pub fn upsert(&mut self, note: Note)
        requires
            old(self).wf(),
        ensures
            final(self).wf(),
            final(self)@ == old(self)@.insert(note.slug@, note),
            old(self)@.contains_key(note.slug@) ==> exists|i: int|
                0 <= i < old(self).spec_entries().len() && (#[trigger] old(
                    self,
                ).spec_entries()[i]).slug@ == note.slug@ && final(self).spec_entries() == old(
                    self,
                ).spec_entries().update(i, note),
            !old(self)@.contains_key(note.slug@) ==> final(self).spec_entries() == old(
                self,
            ).spec_entries().push(note),
    {
        let ghost s0 = self.entries@;
        let mut i: usize = 0;
        while i < self.entries.len()
            invariant
                0 <= i <= self.entries@.len(),
                self.entries@ == s0,
                s0 == old(self).spec_entries(),
                unique_slugs(s0),
                forall|j: int| 0 <= j < i ==> (#[trigger] s0[j]).slug@ != note.slug@,
            decreases self.entries@.len() - i,
        {
            if eq_bytes(self.entries[i].slug.as_slice(), note.slug.as_slice()) {
                let ghost ii = i as int;
                self.entries.set(i, note);
                proof {
                    lemma_update_entry(s0, ii, note);
                    lemma_entries_map(s0);
                    assert(self.entries@ =~= s0.update(ii, note));
                    assert(entries_map(s0).contains_key(s0[ii].slug@));
                }
                return;
            }
            i = i + 1;
        }
        self.entries.push(note);
        proof {
            assert(self.entries@.drop_last() =~= s0);
            assert(unique_slugs(self.entries@)) by {
                assert(forall|j: int| 0 <= j < s0.len() ==> self.entries@[j] == s0[j]);
            }
            lemma_entries_map(s0);
            if entries_map(s0).contains_key(note.slug@) {
                let j = choose|j: int|
                    0 <= j < s0.len() && (#[trigger] s0[j]).slug@ == note.slug@;
            }
            assert(self.entries@ =~= s0.push(note));
        }
    }

    /// The note under an id, when the store holds one.
    pub fn get(&self, id: &[u8]) -> (r: Option<&Note>)
        requires
            self.wf(),
        ensures
            match r {
                Some(n) => self@.contains_key(id@) && *n == self@[id@],
                None => !self@.contains_key(id@),
            },
    {
        proof {
            lemma_entries_map(self.entries@);
        }
        let mut i: usize = 0;
        while i < self.entries.len()
            invariant
                0 <= i <= self.entries@.len(),
                self.wf(),
                forall|j: int| 0 <= j < i ==> (#[trigger] self.entries@[j]).slug@ != id@,
            decreases self.entries@.len() - i,
        {
            if eq_bytes(self.entries[i].slug.as_slice(), id) {
                proof {
                    lemma_entries_map(self.entries@);
                }
                return Some(&self.entries[i]);
            }
            i = i + 1;
        }
        proof {
            lemma_entries_map(self.entries@);
            if self@.contains_key(id@) {
                let j = choose|j: int|
                    0 <= j < self.entries@.len() && (#[trigger] self.entries@[j]).slug@ == id@;
            }
        }
        None
    }

    /// Every note of the current snapshot, in store order.
    pub fn snapshot(&self) -> (r: &Vec<Note>)
        ensures
            r@ == self.spec_entries(),
    {
        &self.entries
    }

    /// The listing: one entry per note — its id, visibility and display
    /// path — and the links of the public notes.
    pub fn note_list(&self) -> (r: (Vec<NodeInfo>, Vec<Link>))
        ensures
            r.0@.len() == self.spec_entries().len(),
            forall|i: int|
                0 <= i < r.0@.len() ==> {
                    let n = self.spec_entries()[i];
                    &&& (#[trigger] r.0@[i]).id@ == n.slug@
                    &&& r.0@[i].public == n.public
                    &&& r.0@[i].path@ == n.path@
                    &&& r.0@[i].note_type@ == seq![110u8, 111u8, 116u8, 101u8]
                },
            r.1@.map_values(|l: Link| l@) == public_links(self.spec_entries()),
    {
        let mut nodes: Vec<NodeInfo> = Vec::new();
        let mut links: Vec<Link> = Vec::new();
        let mut i: usize = 0;
        proof {
            assert(self.entries@.take(0) =~= Seq::<Note>::empty());
        }
        while i < self.entries.len()
            invariant
                0 <= i <= self.entries@.len(),
                nodes@.len() == i,
                forall|j: int|
                    0 <= j < i ==> {
                        let n = self.entries@[j];
                        &&& (#[trigger] nodes@[j]).id@ == n.slug@
                        &&& nodes@[j].public == n.public
                        &&& nodes@[j].path@ == n.path@
                        &&& nodes@[j].note_type@ == seq![110u8, 111u8, 116u8, 101u8]
                    },
                links@.map_values(|l: Link| l@) == public_links(self.entries@.take(i as int)),
            decreases self.entries@.len() - i,
        {
            let n = &self.entries[i];
            let id = subvec(n.slug.as_slice(), 0, n.slug.len());
            let path = subvec(n.path.as_slice(), 0, n.path.len());
            let mut note_type: Vec<u8> = Vec::new();
            note_type.push(110u8);
            note_type.push(111u8);
            note_type.push(116u8);
            note_type.push(101u8);
            proof {
                assert(id@ =~= n.slug@);
                assert(path@ =~= n.path@);
                assert(note_type@ =~= seq![110u8, 111u8, 116u8, 101u8]);
            }
            nodes.push(NodeInfo { id, public: n.public, path, note_type });
            let ghost pre = links@.map_values(|l: Link| l@);
            if n.public {
                let mut more = n.data.links.clone();
                proof {
                    assert(more@.map_values(|l: Link| l@) =~= self.entries@[i as int].data.links@.map_values(|l: Link| l@));
                }
                links.append(&mut more);
            }
            proof {
                assert(self.entries@.take(i + 1).drop_last() =~= self.entries@.take(i as int));
                assert(self.entries@.take(i + 1).last() == self.entries@[i as int]);
                if self.entries@[i as int].public {
                    assert(links@.map_values(|l: Link| l@) =~= pre + self.entries@[i as int].data.links@.map_values(|l: Link| l@));
                } else {
                    assert(links@.map_values(|l: Link| l@) =~= pre + Seq::<LinkV>::empty());
                }
            }
            i = i + 1;
        }
        proof {
            assert(self.entries@.take(i as int) =~= self.entries@);
        }
        (nodes, links)
    }

    /// A point read under the policy: the note when it exists and is
    /// public or may be exposed, a forbidden signal when it exists but
    /// the policy hides it, a not-found signal otherwise.
    pub fn get_note(&self, id: &[u8], expose: bool) -> (r: Result<&Note, QueryError>)
        requires
            self.wf(),
        ensures
            match r {
                Ok(n) => self@.contains_key(id@) && *n == self@[id@] && (n.public || expose),
                Err(QueryError::Forbidden) => self@.contains_key(id@) && !self@[id@].public
                    && !expose,
                Err(QueryError::NotFound) => !self@.contains_key(id@),
            },
    {
        match self.get(id) {
            None => Err(QueryError::NotFound),
            Some(n) => {
                if n.public || expose {
                    Ok(n)
                } else {
                    Err(QueryError::Forbidden)
                }
            },
        }
    }
}

/// The bridge between a store's two faces: the entries the listing and
/// the snapshot speak of carry pairwise distinct ids, and the map the
/// point reads and upserts speak of is exactly the map of those entries.
pub proof fn lemma_view_of_entries(s: &NoteStore)
    requires
        s.wf(),
    ensures
        unique_slugs(s.spec_entries()),
        s@ == entries_map(s.spec_entries()),
{
}

/// What the listing shows is what the store holds: in a well-formed
/// store, every entry is the note stored under its own id, and every
/// stored id is some entry's.
pub proof fn lemma_entries_are_stored(s: &NoteStore)
    requires
        s.wf(),
    ensures
        forall|i: int|
            0 <= i < s.spec_entries().len() ==> s@.contains_key(
                (#[trigger] s.spec_entries()[i]).slug@,
            ) && s@[s.spec_entries()[i].slug@] == s.spec_entries()[i],
        forall|k: Seq<u8>|
            s@.contains_key(k) ==> exists|i: int|
                0 <= i < s.spec_entries().len() && (#[trigger] s.spec_entries()[i]).slug@ == k,
{
    lemma_view_of_entries(s);
    lemma_entries_map(s.spec_entries());
}

/// Replacing the entry that carries an id keeps ids distinct and acts on
/// the map as inserting under that id.
pub proof fn lemma_update_entry(s: Seq<Note>, i: int, n: Note)
    requires
        unique_slugs(s),
        0 <= i < s.len(),
        s[i].slug@ == n.slug@,
    ensures
        unique_slugs(s.update(i, n)),
        entries_map(s.update(i, n)) == entries_map(s).insert(n.slug@, n),
    decreases s.len(),
{
    assert(unique_slugs(s.update(i, n))) by {
        assert(forall|j: int|
            0 <= j < s.len() && j != i ==> s.update(i, n)[j] == s[j]);
        assert(s.update(i, n)[i] == n);
    }
    if i == s.len() - 1 {
        assert(s.update(i, n).drop_last() =~= s.drop_last());
        assert(s.update(i, n).last() == n);
        assert(entries_map(s.drop_last()).insert(s.last().slug@, s.last()).insert(n.slug@, n)
            =~= entries_map(s.drop_last()).insert(n.slug@, n));
    } else {
        assert(unique_slugs(s.drop_last())) by {
            assert(forall|j: int| 0 <= j < s.len() - 1 ==> s.drop_last()[j] == s[j]);
        }
        assert(s.drop_last()[i] == s[i]);
        lemma_update_entry(s.drop_last(), i, n);
        assert(s.update(i, n).drop_last() =~= s.drop_last().update(i, n));
        assert(s.update(i, n).last() == s.last());
        assert(s.last().slug@ != n.slug@) by {
            assert(s[i].slug@ != s[s.len() - 1].slug@);
        }
        assert(entries_map(s.drop_last()).insert(n.slug@, n).insert(s.last().slug@, s.last())
            =~= entries_map(s.drop_last()).insert(s.last().slug@, s.last()).insert(n.slug@, n));
    }
}

/// Indexing the same document twice — a full scan, then a modify event
/// carrying the same id — leaves the store as one upsert of the latest
/// record would: exactly one note stands under that id.
pub proof fn lemma_upsert_idempotent(m: Map<Seq<u8>, Note>, first: Note, second: Note)
    requires
        first.slug@ == second.slug@,
    ensures
        m.insert(first.slug@, first).insert(second.slug@, second) == m.insert(
            second.slug@,
            second,
        ),
{
    assert(m.insert(first.slug@, first).insert(second.slug@, second) =~= m.insert(
        second.slug@,
        second,
    ));
}

/// A well-formed store never holds an id twice: what `upsert` maintains,
/// `count_slug` confirms — one entry per id the map holds.
pub proof fn lemma_store_holds_one(s: NoteStore, k: Seq<u8>)
    requires
        s.wf(),
    ensures
        0 <= count_slug(s.spec_entries(), k) <= 1,
        count_slug(s.spec_entries(), k) == 1 <==> s@.contains_key(k),
{
    lemma_count_slug(s.spec_entries(), k);
}

/// An upsert touches exactly its own id: a read of any other id sees the
/// record it would have seen before, whole.
pub proof fn lemma_upsert_frame(m: Map<Seq<u8>, Note>, note: Note, other: Seq<u8>)
    requires
        other != note.slug@,
    ensures
        m.insert(note.slug@, note).contains_key(other) == m.contains_key(other),
        m.contains_key(other) ==> m.insert(note.slug@, note)[other] == m[other],
        m.insert(note.slug@, note).contains_key(note.slug@),
        m.insert(note.slug@, note)[note.slug@] == note,
{
}

} // verus!
