//! The raw header collection of a discovery message: an ordered list of
//! `(name, value)` byte pairs. Names keep the case they arrived in and are
//! looked up without regard to ASCII case; insertion order is preserved.

use vstd::prelude::*;

use crate::ascii::{bytes_eq_ignore_case, copy_bytes, eq_ignore_case};

verus! {

/// An ordered, case-insensitively keyed collection of raw header
/// name/value pairs.
#[derive(Clone, Debug)]
pub struct HeaderBlock {
    pub entries: Vec<(Vec<u8>, Vec<u8>)>,
}

impl View for HeaderBlock {
    type V = Seq<(Seq<u8>, Seq<u8>)>;

    open spec fn view(&self) -> Seq<(Seq<u8>, Seq<u8>)> {
        self.entries.deep_view()
    }
}

impl DeepView for HeaderBlock {
    type V = Seq<(Seq<u8>, Seq<u8>)>;

    open spec fn deep_view(&self) -> Seq<(Seq<u8>, Seq<u8>)> {
        self.view()
    }
}

/// The values stored under `name`, compared without regard to case, in
/// insertion order.
pub open spec fn spec_values_of(entries: Seq<(Seq<u8>, Seq<u8>)>, name: Seq<u8>) -> Seq<Seq<u8>>
    decreases entries.len(),
{
    if entries.len() == 0 {
        Seq::empty()
    } else {
        let rest = spec_values_of(entries.drop_last(), name);
        if eq_ignore_case(entries.last().0, name) {
            rest.push(entries.last().1)
        } else {
            rest
        }
    }
}

/// Whether some entry is stored under `name`, compared without regard to
/// case.
pub open spec fn spec_has_name(entries: Seq<(Seq<u8>, Seq<u8>)>, name: Seq<u8>) -> bool {
    exists|i: int| 0 <= i < entries.len() && eq_ignore_case(#[trigger] entries[i].0, name)
}

/// The entries left after every entry stored under `name` is removed.
pub open spec fn spec_remove_name(entries: Seq<(Seq<u8>, Seq<u8>)>, name: Seq<u8>) -> Seq<
    (Seq<u8>, Seq<u8>),
>
    decreases entries.len(),
{
    if entries.len() == 0 {
        Seq::empty()
    } else {
        let rest = spec_remove_name(entries.drop_last(), name);
        if eq_ignore_case(entries.last().0, name) {
            rest
        } else {
            rest.push(entries.last())
        }
    }
}

impl HeaderBlock {
    /// An empty collection.
    pub fn new() -> (r: HeaderBlock)
        ensures
            r@ == Seq::<(Seq<u8>, Seq<u8>)>::empty(),
    {
        let r = HeaderBlock { entries: Vec::new() };
        proof {
            assert(r@ =~~= Seq::<(Seq<u8>, Seq<u8>)>::empty());
        }
        r
    }

    /// How many entries the collection holds.
    pub fn len(&self) -> (r: usize)
        ensures
            r == self@.len(),
    {
        self.entries.len()
    }

    /// The entry at position `i`, as fresh copies of its name and value.
    pub fn entry_at(&self, i: usize) -> (r: (Vec<u8>, Vec<u8>))
        requires
            i < self@.len(),
        ensures
            r.0@ == self@[i as int].0,
            r.1@ == self@[i as int].1,
    {
        let pair = (copy_bytes(self.entries[i].0.as_slice()), copy_bytes(
            self.entries[i].1.as_slice(),
        ));
        proof {
            assert(self@[i as int].0 =~= self.entries@[i as int].0@);
            assert(self@[i as int].1 =~= self.entries@[i as int].1@);
        }
        pair
    }

    /// Append one raw entry, keeping whatever is already stored.
    pub fn append_raw(&mut self, name: Vec<u8>, value: Vec<u8>)
        ensures
            final(self)@ == old(self)@.push((name@, value@)),
    {
        let ghost before = self@;
        self.entries.push((name, value));
        proof {
            assert(self@ =~~= before.push((name@, value@)));
        }
    }

    /// All values stored under `name`, in insertion order.
    pub fn get_all(&self, name: &[u8]) -> (r: Vec<Vec<u8>>)
        ensures
            r.deep_view() == spec_values_of(self@, name@),
    {
        let mut out: Vec<Vec<u8>> = Vec::new();
        let mut i: usize = 0;
        proof {
            assert(self@.take(0) =~= Seq::<(Seq<u8>, Seq<u8>)>::empty());
            assert(out.deep_view() =~~= spec_values_of(self@.take(0), name@));
        }
        while i < self.entries.len()
            invariant
                0 <= i <= self@.len(),
                self@.len() == self.entries@.len(),
                out.deep_view() == spec_values_of(self@.take(i as int), name@),
            decreases self@.len() - i,
        {
            proof {
                assert(self@.take(i + 1).drop_last() =~= self@.take(i as int));
                assert(self@.take(i + 1).last() == self@[i as int]);
            }
            let ghost before = out.deep_view();
            proof {
                assert(self@[i as int].0 =~= self.entries@[i as int].0@);
                assert(self@[i as int].1 =~= self.entries@[i as int].1@);
            }
            if bytes_eq_ignore_case(self.entries[i].0.as_slice(), name) {
                out.push(copy_bytes(self.entries[i].1.as_slice()));
                proof {
                    assert(out.deep_view() =~~= before.push(self@[i as int].1));
                }
            }
            i += 1;
        }
        proof {
            assert(self@.take(self@.len() as int) =~= self@);
        }
        out
    }

    /// Whether some entry is stored under `name`.
    pub fn has_name(&self, name: &[u8]) -> (r: bool)
        ensures
            r == spec_has_name(self@, name@),
    {
        let mut i: usize = 0;
        while i < self.entries.len()
            invariant
                0 <= i <= self@.len(),
                self@.len() == self.entries@.len(),
                forall|j: int| 0 <= j < i ==> !eq_ignore_case(#[trigger] self@[j].0, name@),
            decreases self@.len() - i,
        {
            let hit = bytes_eq_ignore_case(self.entries[i].0.as_slice(), name);
            proof {
                assert(self@[i as int].0 =~= self.entries@[i as int].0@);
            }
            if hit {
                assert(eq_ignore_case(self@[i as int].0, name@));
                return true;
            }
            i += 1;
        }
        false
    }

    /// Store `value` as the only entry under `name`: every entry already
    /// stored under that name goes away, and the new pair comes last.
    pub fn set_raw(&mut self, name: Vec<u8>, value: Vec<u8>)
        ensures
            final(self)@ == spec_remove_name(old(self)@, name@).push((name@, value@)),
    {
        let mut kept: Vec<(Vec<u8>, Vec<u8>)> = Vec::new();
        let mut i: usize = 0;
        proof {
            assert(self@.take(0) =~= Seq::<(Seq<u8>, Seq<u8>)>::empty());
            assert(kept.deep_view() =~~= spec_remove_name(self@.take(0), name@));
        }
        while i < self.entries.len()
            invariant
                0 <= i <= self@.len(),
                self@.len() == self.entries@.len(),
                kept.deep_view() == spec_remove_name(self@.take(i as int), name@),
            decreases self@.len() - i,
        {
            proof {
                assert(self@.take(i + 1).drop_last() =~= self@.take(i as int));
                assert(self@.take(i + 1).last() == self@[i as int]);
            }
            let ghost before = kept.deep_view();
            proof {
                assert(self@[i as int].0 =~= self.entries@[i as int].0@);
            }
            if !bytes_eq_ignore_case(self.entries[i].0.as_slice(), name.as_slice()) {
                let pair = self.entry_at(i);
                kept.push(pair);
                proof {
                    assert(kept.deep_view() =~~= before.push(self@[i as int]));
                }
            }
            i += 1;
        }
        proof {
            assert(self@.take(self@.len() as int) =~= self@);
        }
        let ghost removed = spec_remove_name(self@, name@);
        kept.push((name, value));
        proof {
            assert(kept.deep_view() =~~= removed.push((name@, value@)));
        }
        self.entries = kept;
    }
}

} // verus!
