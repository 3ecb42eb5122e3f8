use vstd::prelude::*;

use crate::bytes::{bytes_eq, bytes_of};
use crate::idgen::{generate, is_fresh_id};

verus! {

/// The short id recorded for `link`, if a mapping with that original link
/// exists; mappings are searched oldest first.
pub open spec fn id_for_link(rows: Seq<(Seq<u8>, Seq<u8>)>, link: Seq<u8>) -> Option<Seq<u8>>
    decreases rows.len(),
{
    if rows.len() == 0 {
        None
    } else if rows[0].0 == link {
        Some(rows[0].1)
    } else {
        id_for_link(rows.drop_first(), link)
    }
}

/// The original link of the oldest mapping whose short id is `id`.
pub open spec fn link_for_id(rows: Seq<(Seq<u8>, Seq<u8>)>, id: Seq<u8>) -> Option<Seq<u8>>
    decreases rows.len(),
{
    if rows.len() == 0 {
        None
    } else if rows[0].1 == id {
        Some(rows[0].0)
    } else {
        link_for_id(rows.drop_first(), id)
    }
}

/// No two mappings share an original link.
pub open spec fn links_unique(rows: Seq<(Seq<u8>, Seq<u8>)>) -> bool {
    forall|i: int, j: int| 0 <= i < j < rows.len() ==> rows[i].0 != rows[j].0
}

/// A link found first at index `i` is the one `id_for_link` reports.
pub proof fn lemma_id_for_link_found(rows: Seq<(Seq<u8>, Seq<u8>)>, link: Seq<u8>, i: int)
    requires
        0 <= i < rows.len(),
        rows[i].0 == link,
        forall|k: int| 0 <= k < i ==> rows[k].0 != link,
    ensures
        id_for_link(rows, link) == Some(rows[i].1),
    decreases i,
{
    if i > 0 {
        lemma_id_for_link_found(rows.drop_first(), link, i - 1);
    }
}

/// `id_for_link` reports no id exactly when no mapping carries the link.
pub proof fn lemma_id_for_link_absent(rows: Seq<(Seq<u8>, Seq<u8>)>, link: Seq<u8>)
    ensures
        (id_for_link(rows, link) is None) <==> (forall|k: int|
            0 <= k < rows.len() ==> rows[k].0 != link),
    decreases rows.len(),
{
    if rows.len() > 0 {
        lemma_id_for_link_absent(rows.drop_first(), link);
        if rows[0].0 == link {
            assert(!(forall|k: int| 0 <= k < rows.len() ==> rows[k].0 != link));
        } else {
            if forall|k: int| 0 <= k < rows.len() ==> rows[k].0 != link {
                assert forall|k: int|
                    0 <= k < rows.drop_first().len() implies rows.drop_first()[k].0 != link by {
                    assert(rows.drop_first()[k] == rows[k + 1]);
                }
            }
            if exists|k: int| 0 <= k < rows.len() && rows[k].0 == link {
                let k = choose|k: int| 0 <= k < rows.len() && rows[k].0 == link;
                assert(rows.drop_first()[k - 1] == rows[k]);
            }
        }
    }
}

/// An id found first at index `i` is the one `link_for_id` resolves.
pub proof fn lemma_link_for_id_found(rows: Seq<(Seq<u8>, Seq<u8>)>, id: Seq<u8>, i: int)
    requires
        0 <= i < rows.len(),
        rows[i].1 == id,
        forall|k: int| 0 <= k < i ==> rows[k].1 != id,
    ensures
        link_for_id(rows, id) == Some(rows[i].0),
    decreases i,
{
    if i > 0 {
        lemma_link_for_id_found(rows.drop_first(), id, i - 1);
    }
}

/// `link_for_id` resolves nothing exactly when no mapping carries the id.
pub proof fn lemma_link_for_id_absent(rows: Seq<(Seq<u8>, Seq<u8>)>, id: Seq<u8>)
    ensures
        (link_for_id(rows, id) is None) <==> (forall|k: int|
            0 <= k < rows.len() ==> rows[k].1 != id),
    decreases rows.len(),
{
    if rows.len() > 0 {
        lemma_link_for_id_absent(rows.drop_first(), id);
        if rows[0].1 == id {
            assert(!(forall|k: int| 0 <= k < rows.len() ==> rows[k].1 != id));
        } else {
            if forall|k: int| 0 <= k < rows.len() ==> rows[k].1 != id {
                assert forall|k: int|
                    0 <= k < rows.drop_first().len() implies rows.drop_first()[k].1 != id by {
                    assert(rows.drop_first()[k] == rows[k + 1]);
                }
            }
            if exists|k: int| 0 <= k < rows.len() && rows[k].1 == id {
                let k = choose|k: int| 0 <= k < rows.len() && rows[k].1 == id;
                assert(rows.drop_first()[k - 1] == rows[k]);
            }
        }
    }
}

/// Appending a mapping leaves earlier links authoritative: the appended
/// pair is consulted only when the link was absent before.
pub proof fn lemma_id_for_link_push(
    rows: Seq<(Seq<u8>, Seq<u8>)>,
    link: Seq<u8>,
    p: (Seq<u8>, Seq<u8>),
)
    ensures
        id_for_link(rows.push(p), link) == (match id_for_link(rows, link) {
            Some(id) => Some(id),
            None => if p.0 == link {
                Some(p.1)
            } else {
                None::<Seq<u8>>
            },
        }),
    decreases rows.len(),
{
    if rows.len() == 0 {
        assert(rows.push(p)[0] == p);
        assert(rows.push(p).drop_first() =~= Seq::<(Seq<u8>, Seq<u8>)>::empty());
        assert(id_for_link(rows, link) is None);
        if p.0 == link {
            assert(id_for_link(rows.push(p), link) == Some(p.1));
        } else {
            assert(id_for_link(rows.push(p), link) == id_for_link(
                rows.push(p).drop_first(),
                link,
            ));
            assert(id_for_link(rows.push(p).drop_first(), link) is None);
        }
    } else {
        assert(rows.push(p)[0] == rows[0]);
        assert(rows.push(p).drop_first() =~= rows.drop_first().push(p));
        lemma_id_for_link_push(rows.drop_first(), link, p);
        if rows[0].0 == link {
            assert(id_for_link(rows.push(p), link) == Some(rows[0].1));
            assert(id_for_link(rows, link) == Some(rows[0].1));
        } else {
            assert(id_for_link(rows.push(p), link) == id_for_link(
                rows.drop_first().push(p),
                link,
            ));
            assert(id_for_link(rows, link) == id_for_link(rows.drop_first(), link));
        }
    }
}

/// Model of one lookup-or-create step: `fresh` stands for the identifier
/// the generator would hand out if the link turned out to be new.
pub open spec fn lookup_or_create_model(
    rows: Seq<(Seq<u8>, Seq<u8>)>,
    link: Seq<u8>,
    fresh: Seq<u8>,
) -> (Seq<(Seq<u8>, Seq<u8>)>, Seq<u8>) {
    match id_for_link(rows, link) {
        Some(id) => (rows, id),
        None => (rows.push((link, fresh)), fresh),
    }
}

/// Idempotence: looking up or creating the same link twice returns the
/// same short id both times, and the second step changes no mapping — in
/// all, exactly one mapping is created for a new link.
pub proof fn lemma_lookup_or_create_idempotent(
    rows: Seq<(Seq<u8>, Seq<u8>)>,
    link: Seq<u8>,
    fresh1: Seq<u8>,
    fresh2: Seq<u8>,
)
    ensures
        ({
            let (rows1, id1) = lookup_or_create_model(rows, link, fresh1);
            let (rows2, id2) = lookup_or_create_model(rows1, link, fresh2);
            rows2 == rows1 && id2 == id1
        }),
{
    if id_for_link(rows, link) is None {
        lemma_id_for_link_push(rows, link, (link, fresh1));
    }
}

/// Uniqueness: a lookup-or-create step never makes two mappings share an
/// original link.
pub proof fn lemma_lookup_or_create_preserves_unique(
    rows: Seq<(Seq<u8>, Seq<u8>)>,
    link: Seq<u8>,
    fresh: Seq<u8>,
)
    requires
        links_unique(rows),
    ensures
        links_unique(lookup_or_create_model(rows, link, fresh).0),
{
    if id_for_link(rows, link) is None {
        lemma_id_for_link_absent(rows, link);
        let rows1 = rows.push((link, fresh));
        assert forall|i: int, j: int| 0 <= i < j < rows1.len() implies rows1[i].0 != rows1[j].0 by {
            if j == rows.len() {
                assert(rows[i].0 != link);
            }
        }
    }
}

/// Round-trip: a mapping whose short id no other mapping carries resolves
/// back to exactly its original link.
pub proof fn lemma_round_trip(rows: Seq<(Seq<u8>, Seq<u8>)>, i: int)
    requires
        0 <= i < rows.len(),
        forall|j: int| 0 <= j < rows.len() && j != i ==> rows[j].1 != rows[i].1,
    ensures
        link_for_id(rows, rows[i].1) == Some(rows[i].0),
{
    lemma_link_for_id_found(rows, rows[i].1, i);
}

/// The mapping store: the table of (original link, short id) pairs.
pub struct Store {
    rows: Vec<(Vec<u8>, Vec<u8>)>,
}

impl Store {
    /// The stored mappings as (original link, short id) pairs, oldest first.
    pub closed spec fn mappings(&self) -> Seq<(Seq<u8>, Seq<u8>)> {
        self.rows@.map_values(|p: (Vec<u8>, Vec<u8>)| (p.0@, p.1@))
    }

    /// Invariant: original links are unique across mappings.
    pub open spec fn wf(&self) -> bool {
        links_unique(self.mappings())
    }

    /// An empty store, as created on first use of the backing medium.
    pub fn new() -> (s: Store)
        ensures
            s.mappings().len() == 0,
            s.wf(),
    {
        Store { rows: Vec::new() }
    }

    /// Index of the first mapping for `link`, if any.
    fn find_link(&self, link: &[u8]) -> (r: Option<usize>)
        ensures
            match r {
                Some(i) => i < self.mappings().len() && self.mappings()[i as int].0 == link@
                    && (forall|k: int| 0 <= k < i ==> self.mappings()[k].0 != link@),
                None => forall|k: int|
                    0 <= k < self.mappings().len() ==> self.mappings()[k].0 != link@,
            },
    {
        let mut i: usize = 0;
        while i < self.rows.len()
            invariant
                i <= self.mappings().len(),
                self.mappings().len() == self.rows@.len(),
                forall|k: int| 0 <= k < i ==> self.mappings()[k].0 != link@,
            decreases self.rows@.len() - i,
        {
            let p = &self.rows[i];
            if bytes_eq(p.0.as_slice(), link) {
                assert(self.mappings()[i as int].0 == link@);
                return Some(i);
            }
            assert(self.mappings()[i as int].0 != link@);
            i += 1;
        }
        None
    }

    /// Index of the first mapping carrying the short id `id`, if any.
    fn find_id(&self, id: &[u8]) -> (r: Option<usize>)
        ensures
            match r {
                Some(i) => i < self.mappings().len() && self.mappings()[i as int].1 == id@
                    && (forall|k: int| 0 <= k < i ==> self.mappings()[k].1 != id@),
                None => forall|k: int|
                    0 <= k < self.mappings().len() ==> self.mappings()[k].1 != id@,
            },
    {
        let mut i: usize = 0;
        while i < self.rows.len()
            invariant
                i <= self.mappings().len(),
                self.mappings().len() == self.rows@.len(),
                forall|k: int| 0 <= k < i ==> self.mappings()[k].1 != id@,
            decreases self.rows@.len() - i,
        {
            let p = &self.rows[i];
            if bytes_eq(p.1.as_slice(), id) {
                assert(self.mappings()[i as int].1 == id@);
                return Some(i);
            }
            assert(self.mappings()[i as int].1 != id@);
            i += 1;
        }
        None
    }

    /// If a mapping with this original link exists, return its short id
    /// unchanged; otherwise generate a fresh short id, persist the new
    /// mapping, and return it.
    pub fn lookup_or_create(&mut self, link: &[u8]) -> (id: Vec<u8>)
        requires
            old(self).wf(),
        ensures
            final(self).wf(),
            match id_for_link(old(self).mappings(), link@) {
                Some(existing) => id@ == existing && final(self).mappings() == old(
                    self,
                ).mappings(),
                None => is_fresh_id(id@) && final(self).mappings() == old(self).mappings().push(
                    (link@, id@),
                ),
            },
    {
        match self.find_link(link) {
            Some(i) => {
                proof {
                    lemma_id_for_link_found(self.mappings(), link@, i as int);
                }
                let p = &self.rows[i];
                bytes_of(p.1.as_slice())
            },
            None => {
                proof {
                    lemma_id_for_link_absent(self.mappings(), link@);
                }
                let ghost old_rows = self.mappings();
                let id = generate();
                let link_copy = bytes_of(link);
                let id_copy = bytes_of(id.as_slice());
                self.rows.push((link_copy, id_copy));
                proof {
                    assert(self.mappings() =~= old_rows.push((link@, id@)));
                    lemma_lookup_or_create_preserves_unique(old_rows, link@, id@);
                }
                id
            },
        }
    }

    /// The original link recorded for an exact-match short id, if any.
    pub fn resolve(&self, id: &[u8]) -> (r: Option<Vec<u8>>)
        ensures
            match r {
                Some(l) => link_for_id(self.mappings(), id@) == Some(l@),
                None => link_for_id(self.mappings(), id@) is None,
            },
    {
        match self.find_id(id) {
            Some(i) => {
                proof {
                    lemma_link_for_id_found(self.mappings(), id@, i as int);
                }
                let p = &self.rows[i];
                Some(bytes_of(p.0.as_slice()))
            },
            None => {
                proof {
                    lemma_link_for_id_absent(self.mappings(), id@);
                }
                None
            },
        }
    }

    /// Record an already-issued mapping, as when reloading persisted rows.
    /// A link that is already present is left untouched.
    pub fn insert(&mut self, link: &[u8], id: &[u8]) -> (added: bool)
        requires
            old(self).wf(),
        ensures
            final(self).wf(),
            match id_for_link(old(self).mappings(), link@) {
                Some(_) => !added && final(self).mappings() == old(self).mappings(),
                None => added && final(self).mappings() == old(self).mappings().push(
                    (link@, id@),
                ),
            },
    {
        match self.find_link(link) {
            Some(i) => {
                proof {
                    lemma_id_for_link_found(self.mappings(), link@, i as int);
                }
                false
            },
            None => {
                proof {
                    lemma_id_for_link_absent(self.mappings(), link@);
                }
                let ghost old_rows = self.mappings();
                let link_copy = bytes_of(link);
                let id_copy = bytes_of(id);
                self.rows.push((link_copy, id_copy));
                proof {
                    assert(self.mappings() =~= old_rows.push((link@, id@)));
                    lemma_lookup_or_create_preserves_unique(old_rows, link@, id@);
                }
                true
            },
        }
    }

    /// Number of stored mappings.
    pub fn len(&self) -> (n: usize)
        ensures
            n == self.mappings().len(),
    {
        self.rows.len()
    }

    /// The mapping at index `i`, as owned copies of its link and id.
    pub fn get_row(&self, i: usize) -> (r: (Vec<u8>, Vec<u8>))
        requires
            i < self.mappings().len(),
        ensures
            (r.0@, r.1@) == self.mappings()[i as int],
    {
        let p = &self.rows[i];
        (bytes_of(p.0.as_slice()), bytes_of(p.1.as_slice()))
    }
}

} // verus!
