use vstd::prelude::*;
use crate::codec::{copy_bytes, opt_seq};
use crate::error::McError;

verus! {

/// An in-memory key/value state. Writes are appended, and a later entry for a
/// key hides the earlier ones; a deletion is an entry without a value.
#[derive(Clone, Debug)]
pub struct MemState {
    entries: Vec<(Vec<u8>, Option<Vec<u8>>)>,
}

/// The value that the latest entry for `k` holds.
pub open spec fn lookup(s: Seq<(Vec<u8>, Option<Vec<u8>>)>, k: Seq<u8>) -> Option<Seq<u8>>
    decreases s.len(),
{
    if s.len() == 0 {
        None
    } else if s.last().0@ == k {
        opt_seq(s.last().1)
    } else {
        lookup(s.drop_last(), k)
    }
}

impl View for MemState {
    type V = Map<Seq<u8>, Seq<u8>>;

    closed spec fn view(&self) -> Map<Seq<u8>, Seq<u8>> {
        Map::new(|k: Seq<u8>| lookup(self.entries@, k) is Some, |k: Seq<u8>| lookup(self.entries@, k)->0)
    }
}

impl MemState {
    pub fn new() -> (r: MemState)
        ensures
            r@ == Map::<Seq<u8>, Seq<u8>>::empty(),
    {
        let r = MemState { entries: Vec::new() };
        assert(r@ =~= Map::<Seq<u8>, Seq<u8>>::empty());
        r
    }

    /// A copy holding the same map.
    pub fn duplicate(&self) -> (r: MemState)
        ensures
            r@ == self@,
    {
        let mut out: Vec<(Vec<u8>, Option<Vec<u8>>)> = Vec::new();
        let mut i: usize = 0;
        while i < self.entries.len()
            invariant
                i <= self.entries@.len(),
                out@.len() == i,
                forall|k: Seq<u8>| lookup(out@, k) == lookup(self.entries@.take(i as int), k),
            decreases self.entries@.len() - i,
        {
            let e = &self.entries[i];
            let v = match &e.1 {
                None => None,
                Some(v) => Some(copy_bytes(v)),
            };
            let ghost before = out@;
            out.push((copy_bytes(&e.0), v));
            proof {
                assert(out@.drop_last() =~= before);
                let t = self.entries@.take(i + 1);
                assert(t.drop_last() =~= self.entries@.take(i as int));
                assert(out@.last().0@ == t.last().0@);
                assert(opt_seq(out@.last().1) == opt_seq(t.last().1));
                assert forall|k: Seq<u8>| lookup(out@, k) == lookup(t, k) by {
                    assert(lookup(before, k) == lookup(self.entries@.take(i as int), k));
                    if out@.last().0@ != k {
                        assert(lookup(out@, k) == lookup(out@.drop_last(), k));
                        assert(lookup(t, k) == lookup(t.drop_last(), k));
                    }
                }
            }
            i += 1;
        }
        assert(self.entries@.take(self.entries@.len() as int) =~= self.entries@);
        let r = MemState { entries: out };
        assert(r@ =~= self@);
        r
    }
}

/// A key/value state that transactions read and write.
pub trait State {
    /// What the state holds.
    spec fn entries(&self) -> Map<Seq<u8>, Seq<u8>>;

    fn set(&mut self, key: &[u8], value: &[u8]) -> (r: Result<(), McError>)
        ensures
            r is Ok,
            final(self).entries() == old(self).entries().insert(key@, value@),
    ;

    /// The value under `key`; a missing key is an error.
    fn get(&self, key: &[u8]) -> (r: Result<Vec<u8>, McError>)
        ensures
            self.entries().contains_key(key@) ==> (r matches Ok(v) && v@ == self.entries()[key@]),
            !self.entries().contains_key(key@) ==> r == Err::<Vec<u8>, McError>(McError::MissingKey),
    ;

    fn delete(&mut self, key: &[u8]) -> (r: Result<(), McError>)
        ensures
            r is Ok,
            final(self).entries() == old(self).entries().remove(key@),
    ;
}

impl State for MemState {
    open spec fn entries(&self) -> Map<Seq<u8>, Seq<u8>> {
        self@
    }

    fn set(&mut self, key: &[u8], value: &[u8]) -> (r: Result<(), McError>)
    {
        let k = vstd::slice::slice_to_vec(key);
        let v = vstd::slice::slice_to_vec(value);
        self.entries.push((k, Some(v)));
        proof {
            assert(self.entries@.drop_last() =~= old(self).entries@);
        }
        assert(self@ =~= old(self)@.insert(key@, value@));
        Ok(())
    }

    fn get(&self, key: &[u8]) -> (r: Result<Vec<u8>, McError>)
    {
        let mut i: usize = self.entries.len();
        assert(self.entries@.take(i as int) =~= self.entries@);
        while i > 0
            invariant
                i <= self.entries@.len(),
                lookup(self.entries@, key@) == lookup(self.entries@.take(i as int), key@),
            decreases i,
        {
            let e = &self.entries[i - 1];
            proof {
                assert(self.entries@.take(i as int).drop_last() =~= self.entries@.take(i - 1));
            }
            if slices_equal(e.0.as_slice(), key) {
                return match &e.1 {
                    None => Err(McError::MissingKey),
                    Some(v) => Ok(copy_bytes(v)),
                };
            }
            i -= 1;
        }
        Err(McError::MissingKey)
    }

    fn delete(&mut self, key: &[u8]) -> (r: Result<(), McError>)
    {
        let k = vstd::slice::slice_to_vec(key);
        self.entries.push((k, None));
        proof {
            assert(self.entries@.drop_last() =~= old(self).entries@);
        }
        assert(self@ =~= old(self)@.remove(key@));
        Ok(())
    }
}

/// Whether two byte strings are equal.
pub fn slices_equal(a: &[u8], b: &[u8]) -> (r: bool)
    ensures
        r == (a@ == b@),
{
    if a.len() != b.len() {
        return false;
    }
    let mut i: usize = 0;
    while i < a.len()
        invariant
            a@.len() == b@.len(),
            i <= a@.len(),
            forall|j: int| 0 <= j < i ==> a@[j] == b@[j],
        decreases a@.len() - i,
    {
        if a[i] != b[i] {
            return false;
        }
        i += 1;
    }
    assert(a@ =~= b@);
    true
}

} // verus!
