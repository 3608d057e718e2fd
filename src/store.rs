use vstd::prelude::*;

use crate::text::str_equal;

verus! {

/// A record stored under a string key.
pub trait Keyed: Sized {
    spec fn key(&self) -> Seq<char>;

    fn key_str(&self) -> (r: &str)
        ensures
            r@ == self.key(),
    ;

    fn duplicate(&self) -> (r: Self)
        ensures
            r == *self,
    ;
}

/// No two records share a key.
pub open spec fn unique_keys<R: Keyed>(s: Seq<R>) -> bool {
    forall|i: int, j: int| 0 <= i < s.len() && 0 <= j < s.len() && i != j ==> #[trigger] s[i].key() != #[trigger] s[j].key()
}

/// Some record is stored under `id`.
pub open spec fn has_key<R: Keyed>(s: Seq<R>, id: Seq<char>) -> bool {
    exists|i: int| 0 <= i < s.len() && (#[trigger] s[i]).key() == id
}

/// The position of the record stored under `id`.
pub open spec fn index_of<R: Keyed>(s: Seq<R>, id: Seq<char>) -> int {
    choose|i: int| 0 <= i < s.len() && (#[trigger] s[i]).key() == id
}

/// The record stored under `id`, if any.
pub open spec fn lookup<R: Keyed>(s: Seq<R>, id: Seq<char>) -> Option<R> {
    if has_key(s, id) {
        Some(s[index_of(s, id)])
    } else {
        None
    }
}

/// Stores `r` under its key: it replaces the record already stored there in
/// place, or is added after all others.
pub open spec fn upsert<R: Keyed>(s: Seq<R>, r: R) -> Seq<R> {
    if has_key(s, r.key()) {
        s.update(index_of(s, r.key()), r)
    } else {
        s.push(r)
    }
}

/// Stores each of `rs`, in order.
pub open spec fn upsert_all<R: Keyed>(s: Seq<R>, rs: Seq<R>) -> Seq<R>
    decreases rs.len(),
{
    if rs.len() == 0 {
        s
    } else {
        upsert(upsert_all(s, rs.drop_last()), rs.last())
    }
}

/// Storing a record keeps keys unique, and the record is then what its key
/// finds.
pub proof fn lemma_upsert<R: Keyed>(s: Seq<R>, r: R)
    requires
        unique_keys(s),
    ensures
        unique_keys(upsert(s, r)),
        lookup(upsert(s, r), r.key()) == Some(r),
        forall|id: Seq<char>| id != r.key() ==> lookup(#[trigger] upsert(s, r), id) == lookup(s, id),
        upsert(s, r).len() == s.len() + (if has_key(s, r.key()) { 0int } else { 1int }),
{
    let u = upsert(s, r);
    if has_key(s, r.key()) {
        let k = index_of(s, r.key());
        assert(u[k] == r);
        assert forall|id: Seq<char>| id != r.key() implies lookup(#[trigger] upsert(s, r), id) == lookup(s, id) by {
            if has_key(s, id) {
                let i = index_of(s, id);
                assert(u[i] == s[i]);
            }
            if has_key(u, id) {
                let i = index_of(u, id);
                assert(u[i] == s[i]);
            }
        }
    } else {
        let n = s.len() as int;
        assert(u[n] == r);
        assert forall|id: Seq<char>| id != r.key() implies lookup(#[trigger] upsert(s, r), id) == lookup(s, id) by {
            if has_key(s, id) {
                let i = index_of(s, id);
                assert(u[i] == s[i]);
            }
            if has_key(u, id) {
                let i = index_of(u, id);
                assert(u[i] == s[i]);
            }
        }
    }
}

/// Saving the same record twice leaves one record under its key, with the
/// values of the second save, and saving one record twice changes nothing
/// the first save did not.
pub proof fn lemma_save_twice<R: Keyed>(s: Seq<R>, a: R, b: R)
    requires
        unique_keys(s),
        a.key() == b.key(),
    ensures
        lookup(upsert_all(upsert_all(s, seq![a]), seq![b]), a.key()) == Some(b),
        upsert_all(upsert_all(s, seq![a]), seq![b]).len() == upsert_all(s, seq![a]).len(),
        forall|i: int, j: int|
            0 <= i < j < upsert_all(upsert_all(s, seq![a]), seq![b]).len() ==> !(#[trigger] upsert_all(
                upsert_all(s, seq![a]),
                seq![b],
            )[i].key() == a.key() && #[trigger] upsert_all(upsert_all(s, seq![a]), seq![b])[j].key() == a.key()),
        upsert_all(upsert_all(s, seq![a]), seq![a]) == upsert_all(s, seq![a]),
{
    assert(seq![a].drop_last() =~= Seq::<R>::empty());
    assert(seq![b].drop_last() =~= Seq::<R>::empty());
    assert(seq![a].last() == a);
    assert(seq![b].last() == b);
    assert(upsert_all(s, Seq::<R>::empty()) == s);
    let s1 = upsert_all(s, seq![a]);
    assert(s1 == upsert(s, a));
    lemma_upsert(s, a);
    assert(upsert_all(s1, Seq::<R>::empty()) == s1);
    let s2 = upsert_all(s1, seq![b]);
    assert(s2 == upsert(s1, b));
    lemma_upsert(s1, b);
    assert(has_key(s1, a.key())) by {
        let i = index_of(s1, a.key());
    }
    let s3 = upsert_all(s1, seq![a]);
    assert(s3 == upsert(s1, a));
    let k = index_of(s1, a.key());
    assert(s1[k] == a);
    assert(s3 =~= s1);
}

/// Records kept in insertion order, unique by key.
pub struct StructureStore<R: Keyed> {
    records: Vec<R>,
}

impl<R: Keyed> View for StructureStore<R> {
    type V = Seq<R>;

    closed spec fn view(&self) -> Seq<R> {
        self.records@
    }
}

impl<R: Keyed> StructureStore<R> {
    /// Well-formed: no two stored records share a key.
    pub open spec fn wf(&self) -> bool {
        unique_keys(self@)
    }

    /// An empty store.
    pub fn new() -> (r: Self)
        ensures
            r@ == Seq::<R>::empty(),
            r.wf(),
    {
        StructureStore { records: Vec::new() }
    }

    /// The stored records, in insertion order.
    pub fn records(&self) -> (r: &Vec<R>)
        ensures
            r@ == self@,
    {
        &self.records
    }

    /// Position of the record stored under `id`, if any.
    fn position(&self, id: &str) -> (r: Option<usize>)
        requires
            self.wf(),
        ensures
            r is None <==> !has_key(self@, id@),
            r is Some ==> r->0 == index_of(self@, id@),
    {
        let mut i: usize = 0;
        while i < self.records.len()
            invariant
                unique_keys(self.records@),
                i <= self.records@.len(),
                forall|j: int| 0 <= j < i ==> (#[trigger] self.records@[j]).key() != id@,
            decreases self.records@.len() - i,
        {
            if str_equal(self.records[i].key_str(), id) {
                proof {
                    let c = index_of(self.records@, id@);
                    assert(self.records@[c].key() == id@);
                }
                return Some(i);
            }
            i = i + 1;
        }
        None
    }

    /// The record stored under `id`, if any.
    pub fn find_by_id(&self, id: &str) -> (r: Option<R>)
        requires
            self.wf(),
        ensures
            r == lookup(self@, id@),
    {
        match self.position(id) {
            Some(i) => Some(self.records[i].duplicate()),
            None => None,
        }
    }

    /// Stores `record` under its key, replacing what was stored there.
    pub fn upsert(&mut self, record: R)
        requires
            old(self).wf(),
        ensures
            final(self).wf(),
            final(self)@ == upsert(old(self)@, record),
    {
        proof {
            lemma_upsert(self.records@, record);
        }
        match self.position(record.key_str()) {
            Some(i) => {
                self.records.set(i, record);
            },
            None => {
                self.records.push(record);
            },
        }
    }

    /// Stores each record in turn; an empty list changes nothing.
    pub fn save_all(&mut self, records: Vec<R>)
        requires
            old(self).wf(),
        ensures
            final(self).wf(),
            final(self)@ == upsert_all(old(self)@, records@),
    {
        let mut i: usize = 0;
        while i < records.len()
            invariant
                i <= records@.len(),
                self.wf(),
                self@ == upsert_all(old(self)@, records@.subrange(0, i as int)),
            decreases records@.len() - i,
        {
            let r = records[i].duplicate();
            let ghost before = self@;
            self.upsert(r);
            proof {
                let next = records@.subrange(0, i + 1);
                assert(next.drop_last() =~= records@.subrange(0, i as int));
                assert(next.last() == records@[i as int]);
            }
            i = i + 1;
        }
        proof {
            assert(records@.subrange(0, records@.len() as int) =~= records@);
        }
    }
}

} // verus!
