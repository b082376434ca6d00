use vstd::prelude::*;
use vstd::slice::slice_to_vec;

verus! {

/// An interner: every distinct byte string gets the next free index, once.
pub struct IStrings {
    list: Vec<Vec<u8>>,
}

/// No string occurs at two indices.
pub open spec fn distinct(table: Seq<Seq<u8>>) -> bool {
    forall|i: int, j: int| 0 <= i < j < table.len() ==> table[i] != table[j]
}

/// The table after interning `name`, and the index that `name` has in it.
pub open spec fn interned(table: Seq<Seq<u8>>, name: Seq<u8>) -> (Seq<Seq<u8>>, int) {
    if table.contains(name) {
        (table, table.index_of(name))
    } else {
        (table.push(name), table.len() as int)
    }
}

/// Whether two byte strings are the same.
pub fn same_bytes(a: &[u8], b: &[u8]) -> (same: bool)
    ensures
        same == (a@ == b@),
{
    if a.len() != b.len() {
        return false;
    }
    let mut i: usize = 0;
    while i < a.len()
        invariant
            i <= a.len(),
            a.len() == b.len(),
            forall|k: int| 0 <= k < i ==> a@[k] == b@[k],
        decreases a.len() - i,
    {
        if a[i] != b[i] {
            return false;
        }
        i += 1;
    }
    assert(a@ =~= b@);
    true
}

impl View for IStrings {
    type V = Seq<Seq<u8>>;

    closed spec fn view(&self) -> Seq<Seq<u8>> {
        self.list@.map_values(|s: Vec<u8>| s@)
    }
}

impl IStrings {
    /// The invariant of the table: ids are canonical.
    pub open spec fn wf(&self) -> bool {
        distinct(self@)
    }

    /// A table that holds no string.
    pub fn new() -> (table: IStrings)
        ensures
            table@ == Seq::<Seq<u8>>::empty(),
            table.wf(),
    {
        let table = IStrings { list: Vec::new() };
        assert(table@ =~= Seq::<Seq<u8>>::empty());
        table
    }

    /// The number of strings stored.
    pub fn len(&self) -> (n: usize)
        ensures
            n == self@.len(),
    {
        self.list.len()
    }

    /// Returns the index of `name`, storing it first if it is new.
    pub fn intern(&mut self, name: &[u8]) -> (index: usize)
        requires
            old(self).wf(),
        ensures
            final(self).wf(),
            (final(self)@, index as int) == interned(old(self)@, name@),
    {
        let mut i: usize = 0;
        while i < self.list.len()
            invariant
                i <= self.list.len(),
                *self == *old(self),
                self.wf(),
                forall|k: int| 0 <= k < i ==> self@[k] != name@,
            decreases self.list.len() - i,
        {
            if same_bytes(self.list[i].as_slice(), name) {
                proof {
                    assert(self@[i as int] == name@);
                    let j = self@.index_of(name@);
                    assert(self@[j] == name@);
                    assert(j == i);
                }
                return i;
            }
            i += 1;
        }
        assert(!self@.contains(name@));
        let ghost before = self@;
        self.list.push(slice_to_vec(name));
        assert(self@ =~= before.push(name@));
        i
    }

    /// The string stored at `index`.
    pub fn lookup(&self, index: usize) -> (name: &[u8])
        requires
            index < self@.len(),
        ensures
            name@ == self@[index as int],
    {
        self.list[index].as_slice()
    }
}

/// Interning the same bytes twice gives the same index, different bytes give
/// different indices, and the index leads back to the bytes.
pub proof fn lemma_intern_canonical(table: Seq<Seq<u8>>, a: Seq<u8>, b: Seq<u8>)
    requires
        distinct(table),
    ensures
        ({
            let (t1, i) = interned(table, a);
            let (t2, j) = interned(t1, b);
            &&& distinct(t1)
            &&& distinct(t2)
            &&& 0 <= i < t1.len()
            &&& 0 <= j < t2.len()
            &&& t1[i] == a
            &&& t2[i] == a
            &&& t2[j] == b
            &&& (i == j <==> a == b)
        }),
{
    let (t1, i) = interned(table, a);
    let (t2, j) = interned(t1, b);
    lemma_interned(table, a);
    lemma_interned(t1, b);
}

/// Interning keeps every earlier index and keeps the table free of duplicates.
pub proof fn lemma_interned(table: Seq<Seq<u8>>, name: Seq<u8>)
    requires
        distinct(table),
    ensures
        ({
            let (after, i) = interned(table, name);
            &&& distinct(after)
            &&& 0 <= i < after.len()
            &&& after[i] == name
            &&& table.len() <= after.len() <= table.len() + 1
            &&& forall|k: int| 0 <= k < table.len() ==> after[k] == table[k]
        }),
{
    let (after, i) = interned(table, name);
    if table.contains(name) {
    } else {
        assert forall|x: int, y: int| 0 <= x < y < after.len() implies after[x] != after[y] by {
            if y == table.len() {
                assert(table.contains(table[x]));
            }
        }
    }
}

} // verus!
