//! A byte-level model of an HTTP header map.
//!
//! Headers are an ordered list of name/value pairs of raw bytes; names
//! compare case-insensitively. The view of a map is the sequence of its
//! pairs, so contracts can say exactly which fields a mutation keeps,
//! replaces or removes.

use crate::ascii::{eq_ignore_case, spec_eq_ignore_case};
use vstd::prelude::*;

verus! {

/// One header field: a name and a value, both raw bytes.
pub struct HeaderEntry {
    /// The field name.
    pub name: Vec<u8>,
    /// The field value.
    pub value: Vec<u8>,
}

impl View for HeaderEntry {
    type V = (Seq<u8>, Seq<u8>);

    open spec fn view(&self) -> (Seq<u8>, Seq<u8>) {
        (self.name@, self.value@)
    }
}

/// Whether two header names denote the same field (ASCII case-insensitive).
pub open spec fn spec_name_matches(a: Seq<u8>, b: Seq<u8>) -> bool {
    spec_eq_ignore_case(a, b)
}

/// The value of the first field named `name`, if any.
pub open spec fn spec_get(h: Seq<(Seq<u8>, Seq<u8>)>, name: Seq<u8>) -> Option<Seq<u8>>
    decreases h.len(),
{
    if h.len() == 0 {
        None
    } else if spec_name_matches(h[0].0, name) {
        Some(h[0].1)
    } else {
        spec_get(h.drop_first(), name)
    }
}

/// Whether some field is named `name`.
pub open spec fn spec_has_name(h: Seq<(Seq<u8>, Seq<u8>)>, name: Seq<u8>) -> bool {
    spec_get(h, name) is Some
}

/// The values of all fields named `name`, in order.
pub open spec fn spec_values(h: Seq<(Seq<u8>, Seq<u8>)>, name: Seq<u8>) -> Seq<Seq<u8>>
    decreases h.len(),
{
    if h.len() == 0 {
        Seq::empty()
    } else if spec_name_matches(h[0].0, name) {
        seq![h[0].1] + spec_values(h.drop_first(), name)
    } else {
        spec_values(h.drop_first(), name)
    }
}

/// `h` with every field named `name` removed.
pub open spec fn spec_remove(h: Seq<(Seq<u8>, Seq<u8>)>, name: Seq<u8>) -> Seq<(Seq<u8>, Seq<u8>)>
    decreases h.len(),
{
    if h.len() == 0 {
        Seq::empty()
    } else if spec_name_matches(h[0].0, name) {
        spec_remove(h.drop_first(), name)
    } else {
        seq![h[0]] + spec_remove(h.drop_first(), name)
    }
}

/// `h` with every field named `name` removed and the single pair
/// `(name, value)` added at the end.
pub open spec fn spec_insert(
    h: Seq<(Seq<u8>, Seq<u8>)>,
    name: Seq<u8>,
    value: Seq<u8>,
) -> Seq<(Seq<u8>, Seq<u8>)> {
    spec_remove(h, name).push((name, value))
}

/// Copies a byte vector.
pub fn clone_bytes(v: &Vec<u8>) -> (r: Vec<u8>)
    ensures
        r@ == v@,
{
    let r = v.clone();
    proof {
        assert(r@ =~= v@);
    }
    r
}

/// An ordered collection of header fields.
pub struct HeaderMap {
    entries: Vec<HeaderEntry>,
}

impl View for HeaderMap {
    type V = Seq<(Seq<u8>, Seq<u8>)>;

    closed spec fn view(&self) -> Seq<(Seq<u8>, Seq<u8>)> {
        Seq::new(self.entries@.len(), |i: int| (self.entries@[i].name@, self.entries@[i].value@))
    }
}

impl HeaderMap {
    /// Creates an empty header map.
    pub fn new() -> (h: HeaderMap)
        ensures
            h@ == Seq::<(Seq<u8>, Seq<u8>)>::empty(),
    {
        let h = HeaderMap { entries: Vec::new() };
        proof {
            assert(h@ =~= Seq::<(Seq<u8>, Seq<u8>)>::empty());
        }
        h
    }

    /// The number of fields.
    pub fn len(&self) -> (n: usize)
        ensures
            n == self@.len(),
    {
        self.entries.len()
    }

    /// Adds a field at the end, keeping existing fields of the same name.
    pub fn append(&mut self, name: Vec<u8>, value: Vec<u8>)
        ensures
            final(self)@ == old(self)@.push((name@, value@)),
    {
        let ghost n = name@;
        let ghost v = value@;
        self.entries.push(HeaderEntry { name, value });
        proof {
            assert(self@ =~= old(self)@.push((n, v)));
        }
    }

    /// The field at position `i`: its name and value.
    pub fn entry_at<'a>(&'a self, i: usize) -> (r: (&'a Vec<u8>, &'a Vec<u8>))
        requires
            i < self@.len(),
        ensures
            r.0@ == self@[i as int].0,
            r.1@ == self@[i as int].1,
    {
        let e = &self.entries[i];
        (&e.name, &e.value)
    }

    /// The value of the first field named `name`, if any.
    pub fn get<'a>(&'a self, name: &[u8]) -> (r: Option<&'a Vec<u8>>)
        ensures
            match r {
                Some(v) => spec_get(self@, name@) == Some(v@),
                None => spec_get(self@, name@) is None,
            },
    {
        let n = self.entries.len();
        proof {
            assert(self@.skip(0) =~= self@);
        }
        for i in 0..n
            invariant
                n == self@.len(),
                n == self.entries@.len(),
                spec_get(self@, name@) == spec_get(self@.skip(i as int), name@),
        {
            proof {
                let rest = self@.skip(i as int);
                assert(rest[0] == self@[i as int]);
                assert(rest.drop_first() =~= self@.skip(i + 1));
            }
            let e = &self.entries[i];
            if eq_ignore_case(e.name.as_slice(), name) {
                return Some(&e.value);
            }
        }
        proof {
            assert(self@.skip(n as int) =~= Seq::<(Seq<u8>, Seq<u8>)>::empty());
        }
        None
    }

    /// Whether some field is named `name`.
    pub fn contains_name(&self, name: &[u8]) -> (r: bool)
        ensures
            r == spec_has_name(self@, name@),
    {
        match self.get(name) {
            Some(_) => true,
            None => false,
        }
    }

    /// The values of all fields named `name`, in order.
    pub fn values(&self, name: &[u8]) -> (r: Vec<Vec<u8>>)
        ensures
            r@.len() == spec_values(self@, name@).len(),
            forall|k: int|
                0 <= k < r@.len() ==> (#[trigger] r@[k])@ == spec_values(self@, name@)[k],
    {
        let ghost target = spec_values(self@, name@);
        let mut r: Vec<Vec<u8>> = Vec::new();
        let n = self.entries.len();
        proof {
            assert(self@.skip(0) =~= self@);
            assert(Seq::new(r@.len(), |k: int| r@[k]@) =~= Seq::<Seq<u8>>::empty());
        }
        for i in 0..n
            invariant
                n == self@.len(),
                n == self.entries@.len(),
                target == spec_values(self@, name@),
                Seq::new(r@.len(), |k: int| r@[k]@) + spec_values(self@.skip(i as int), name@)
                    == target,
        {
            proof {
                let rest = self@.skip(i as int);
                assert(rest[0] == self@[i as int]);
                assert(rest.drop_first() =~= self@.skip(i + 1));
            }
            let e = &self.entries[i];
            let ghost prev = Seq::new(r@.len(), |k: int| r@[k]@);
            if eq_ignore_case(e.name.as_slice(), name) {
                r.push(clone_bytes(&e.value));
                proof {
                    assert(Seq::new(r@.len(), |k: int| r@[k]@) =~= prev.push(self@[i as int].1));
                    assert(prev.push(self@[i as int].1) + spec_values(self@.skip(i + 1), name@)
                        =~= prev + (seq![self@[i as int].1] + spec_values(
                        self@.skip(i + 1),
                        name@,
                    )));
                }
            }
        }
        proof {
            assert(self@.skip(n as int) =~= Seq::<(Seq<u8>, Seq<u8>)>::empty());
            assert(Seq::new(r@.len(), |k: int| r@[k]@) + spec_values(self@.skip(n as int), name@)
                =~= Seq::new(r@.len(), |k: int| r@[k]@));
        }
        r
    }

    /// Removes every field named `name`.
    pub fn remove(&mut self, name: &[u8])
        ensures
            final(self)@ == spec_remove(old(self)@, name@),
    {
        let ghost h0 = self@;
        let mut out: Vec<HeaderEntry> = Vec::new();
        let n = self.entries.len();
        proof {
            assert(h0.skip(0) =~= h0);
            assert(Seq::new(out@.len(), |k: int| (out@[k].name@, out@[k].value@))
                =~= Seq::<(Seq<u8>, Seq<u8>)>::empty());
        }
        for i in 0..n
            invariant
                n == h0.len(),
                n == self.entries@.len(),
                self@ == h0,
                Seq::new(out@.len(), |k: int| (out@[k].name@, out@[k].value@))
                    + spec_remove(h0.skip(i as int), name@) == spec_remove(h0, name@),
        {
            proof {
                let rest = h0.skip(i as int);
                assert(rest[0] == h0[i as int]);
                assert(rest.drop_first() =~= h0.skip(i + 1));
            }
            let e = &self.entries[i];
            let ghost prev = Seq::new(out@.len(), |k: int| (out@[k].name@, out@[k].value@));
            if !eq_ignore_case(e.name.as_slice(), name) {
                out.push(HeaderEntry { name: clone_bytes(&e.name), value: clone_bytes(&e.value) });
                proof {
                    assert(Seq::new(out@.len(), |k: int| (out@[k].name@, out@[k].value@))
                        =~= prev.push(h0[i as int]));
                    assert(prev.push(h0[i as int]) + spec_remove(h0.skip(i + 1), name@)
                        =~= prev + (seq![h0[i as int]] + spec_remove(h0.skip(i + 1), name@)));
                }
            }
        }
        proof {
            assert(h0.skip(n as int) =~= Seq::<(Seq<u8>, Seq<u8>)>::empty());
            assert(Seq::new(out@.len(), |k: int| (out@[k].name@, out@[k].value@))
                + spec_remove(h0.skip(n as int), name@)
                =~= Seq::new(out@.len(), |k: int| (out@[k].name@, out@[k].value@)));
        }
        self.entries = out;
    }

    /// Replaces every field named `name` with the single pair `(name, value)`.
    pub fn insert(&mut self, name: Vec<u8>, value: Vec<u8>)
        ensures
            final(self)@ == spec_insert(old(self)@, name@, value@),
    {
        self.remove(name.as_slice());
        self.append(name, value);
    }
}

} // verus!
