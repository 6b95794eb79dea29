use vstd::prelude::*;

verus! {

/// A store of byte values under byte keys, in order of first insertion.
pub struct RocksDBStore {
    db: Vec<(Vec<u8>, Vec<u8>)>,
}

/// The keys and values as pairs of byte sequences.
pub open spec fn pair_views(v: Seq<(Vec<u8>, Vec<u8>)>) -> Seq<(Seq<u8>, Seq<u8>)> {
    v.map_values(|p: (Vec<u8>, Vec<u8>)| (p.0@, p.1@))
}

/// The value stored under a key: the latest pair with that key.
pub open spec fn value_of(db: Seq<(Seq<u8>, Seq<u8>)>, key: Seq<u8>) -> Option<Seq<u8>>
    decreases db.len(),
{
    if db.len() == 0 {
        None
    } else if db.last().0 == key {
        Some(db.last().1)
    } else {
        value_of(db.drop_last(), key)
    }
}

/// Whether two byte buffers hold the same bytes.
fn same_bytes(a: &Vec<u8>, b: &Vec<u8>) -> (r: bool)
    ensures
        r == (a@ == b@),
{
    if a.len() != b.len() {
        return false;
    }
    let mut i: usize = 0;
    while i < a.len()
        invariant
            a@.len() == b@.len(),
            i <= a@.len(),
            forall|j: int| 0 <= j < i ==> a@[j] == b@[j],
        decreases a@.len() - i,
    {
        if a[i] != b[i] {
            return false;
        }
        i = i + 1;
    }
    assert(a@ =~= b@);
    true
}

impl RocksDBStore {
    /// The pairs in the store.
    pub closed spec fn contents(&self) -> Seq<(Seq<u8>, Seq<u8>)> {
        pair_views(self.db@)
    }

    /// An empty store.
    pub fn new() -> (r: RocksDBStore)
        ensures
            r.contents().len() == 0,
    {
        let r = RocksDBStore { db: Vec::new() };
        assert(r.contents() =~= Seq::<(Seq<u8>, Seq<u8>)>::empty());
        r
    }

    /// Stores a value under a key; a later value of a key hides earlier ones.
    pub fn put(&mut self, key: Vec<u8>, value: Vec<u8>)
        ensures
            final(self).contents() == old(self).contents().push((key@, value@)),
            value_of(final(self).contents(), key@) == Some(value@),
    {
        let ghost before = self.contents();
        let ghost kv = (key@, value@);
        self.db.push((key, value));
        assert(self.contents() =~= before.push(kv));
        assert(self.contents().drop_last() =~= before);
    }

    /// The value stored under a key.
    pub fn get(&self, key: &Vec<u8>) -> (r: Option<Vec<u8>>)
        ensures
            match r {
                Some(v) => value_of(self.contents(), key@) == Some(v@),
                None => value_of(self.contents(), key@) is None,
            },
    {
        let mut i: usize = self.db.len();
        assert(self.contents().subrange(0, i as int) =~= self.contents());
        while i > 0
            invariant
                i <= self.db@.len(),
                value_of(self.contents(), key@) == value_of(self.contents().subrange(0, i as int), key@),
            decreases i,
        {
            let ghost pre = self.contents().subrange(0, i as int);
            assert(pre.drop_last() =~= self.contents().subrange(0, i - 1));
            assert(pre.last() == (self.db@[i - 1].0@, self.db@[i - 1].1@));
            if same_bytes(&self.db[i - 1].0, key) {
                return Some(crate::text::copy_bytes(&self.db[i - 1].1));
            }
            i = i - 1;
        }
        None
    }
}

} // verus!
