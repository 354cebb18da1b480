//! The label table: label names and the addresses they stand for, in declaration order.

use vstd::prelude::*;

use crate::text::same_text;

verus! {

/// The address of the first entry named `name`.
pub open spec fn lookup(entries: Seq<(Seq<char>, u8)>, name: Seq<char>) -> Option<u8>
    decreases entries.len(),
{
    if entries.len() == 0 {
        None
    } else if entries[0].0 == name {
        Some(entries[0].1)
    } else {
        lookup(entries.drop_first(), name)
    }
}

/// Looking a name up after adding an entry finds an earlier entry first.
pub proof fn lemma_lookup_push(s: Seq<(Seq<char>, u8)>, e: (Seq<char>, u8), n: Seq<char>)
    ensures
        lookup(s.push(e), n) == if lookup(s, n) is Some {
            lookup(s, n)
        } else if e.0 == n {
            Some(e.1)
        } else {
            None
        },
    decreases s.len(),
{
    if s.len() > 0 {
        assert(s.push(e)[0] == s[0]);
        assert(s.push(e).drop_first() =~= s.drop_first().push(e));
        lemma_lookup_push(s.drop_first(), e, n);
    } else {
        assert(s.push(e)[0] == e);
        assert(s.push(e).drop_first() =~= Seq::<(Seq<char>, u8)>::empty());
        assert(lookup(Seq::<(Seq<char>, u8)>::empty(), n) is None);
    }
}

/// Label names with their addresses.
#[derive(Debug)]
pub struct LabelTable {
    names: Vec<String>,
    addrs: Vec<u8>,
}

impl View for LabelTable {
    type V = Seq<(Seq<char>, u8)>;

    closed spec fn view(&self) -> Seq<(Seq<char>, u8)> {
        Seq::new(self.names@.len(), |i: int| (self.names@[i]@, self.addrs@[i]))
    }
}

impl LabelTable {
    pub closed spec fn wf(&self) -> bool {
        self.names@.len() == self.addrs@.len()
    }

    /// An empty table.
    pub fn new() -> (r: LabelTable)
        ensures
            r.wf(),
            r@ == Seq::<(Seq<char>, u8)>::empty(),
    {
        let r = LabelTable { names: Vec::new(), addrs: Vec::new() };
        assert(r@ =~= Seq::<(Seq<char>, u8)>::empty());
        r
    }

    /// Adds `name` at `addr` after the entries already there.
    pub fn insert(&mut self, name: String, addr: u8)
        requires
            old(self).wf(),
        ensures
            final(self).wf(),
            final(self)@ == old(self)@.push((name@, addr)),
    {
        self.names.push(name);
        self.addrs.push(addr);
        assert(self@ =~= old(self)@.push((name@, addr)));
    }

    /// The address of `name`.
    pub fn find(&self, name: &str) -> (r: Option<u8>)
        requires
            self.wf(),
        ensures
            r == lookup(self@, name@),
    {
        let mut i: usize = 0;
        assert(self@.subrange(0, self@.len() as int) =~= self@);
        while i < self.names.len()
            invariant
                self.wf(),
                i <= self@.len(),
                lookup(self@, name@) == lookup(self@.subrange(i as int, self@.len() as int), name@),
            decreases self@.len() - i,
        {
            let ghost rest = self@.subrange(i as int, self@.len() as int);
            assert(rest.drop_first() =~= self@.subrange(i + 1, self@.len() as int));
            if same_text(self.names[i].as_str(), name) {
                return Some(self.addrs[i]);
            }
            i = i + 1;
        }
        None
    }
}

} // verus!
