use vstd::prelude::*;

verus! {

/// No name occurs twice in `s`.
pub open spec fn names_unique(s: Seq<Seq<u8>>) -> bool {
    forall|i: int, j: int| 0 <= i < s.len() && 0 <= j < s.len() && s[i] == s[j] ==> i == j
}

/// The id under which `name` is stored in `s`, if any.
pub open spec fn lookup(s: Seq<Seq<u8>>, name: Seq<u8>) -> Option<int> {
    if exists|i: int| 0 <= i < s.len() && s[i] == name {
        Some(choose|i: int| 0 <= i < s.len() && s[i] == name)
    } else {
        None
    }
}

/// In a dictionary without repeated names, the name at `i` is found at `i`.
pub proof fn lemma_lookup_at(s: Seq<Seq<u8>>, i: int)
    requires
        names_unique(s),
        0 <= i < s.len(),
    ensures
        lookup(s, s[i]) == Some(i),
{
}

/// A lookup that finds something finds a matching entry.
pub proof fn lemma_lookup_found(s: Seq<Seq<u8>>, name: Seq<u8>)
    requires
        lookup(s, name) is Some,
    ensures
        0 <= lookup(s, name).unwrap() < s.len(),
        s[lookup(s, name).unwrap()] == name,
{
}

/// An element-wise copy of a vector of plain values.
pub fn copy_vec<T: Copy>(v: &Vec<T>) -> (r: Vec<T>)
    ensures
        r@ == v@,
{
    let mut r: Vec<T> = Vec::with_capacity(v.len());
    let mut i: usize = 0;
    while i < v.len()
        invariant
            i <= v.len(),
            r@ == v@.subrange(0, i as int),
        decreases v.len() - i,
    {
        r.push(v[i]);
        i += 1;
    }
    assert(r@ =~= v@);
    r
}

/// Byte-wise comparison of two names.
pub fn bytes_equal(a: &[u8], b: &[u8]) -> (r: bool)
    ensures
        r == (a@ == b@),
{
    if a.len() != b.len() {
        return false;
    }
    let mut i: usize = 0;
    while i < a.len()
        invariant
            a@.len() == b@.len(),
            i <= a.len(),
            forall|k: int| 0 <= k < i ==> a@[k] == b@[k],
        decreases a.len() - i,
    {
        if a[i] != b[i] {
            return false;
        }
        i += 1;
    }
    assert(a@ =~= b@);
    true
}

/// A copy of a byte string as an owned vector.
pub fn bytes_of(s: &[u8]) -> (r: Vec<u8>)
    ensures
        r@ == s@,
{
    let mut r: Vec<u8> = Vec::with_capacity(s.len());
    let mut i: usize = 0;
    while i < s.len()
        invariant
            i <= s.len(),
            r@ == s@.subrange(0, i as int),
        decreases s.len() - i,
    {
        r.push(s[i]);
        i += 1;
    }
    assert(r@ =~= s@);
    r
}

/// An append-only mapping from dense ids to unique names: an entry's id is
/// its position in insertion order.
pub struct Dictionary {
    names: Vec<Vec<u8>>,
}

impl View for Dictionary {
    type V = Seq<Seq<u8>>;

    closed spec fn view(&self) -> Seq<Seq<u8>> {
        self.names@.map_values(|n: Vec<u8>| n@)
    }
}

impl Dictionary {
    pub open spec fn wf(&self) -> bool {
        names_unique(self@) && self@.len() <= usize::MAX
    }

    pub fn new() -> (r: Dictionary)
        ensures
            r@ == Seq::<Seq<u8>>::empty(),
            r.wf(),
    {
        let r = Dictionary { names: Vec::new() };
        assert(r@ =~= Seq::<Seq<u8>>::empty());
        r
    }

    pub fn len(&self) -> (r: usize)
        ensures
            r == self@.len(),
    {
        self.names.len()
    }

    pub fn name(&self, id: usize) -> (r: &Vec<u8>)
        requires
            id < self@.len(),
        ensures
            r@ == self@[id as int],
    {
        &self.names[id]
    }

    /// The id of `name`, or `None` where it is absent.
    pub fn id_of(&self, name: &[u8]) -> (r: Option<usize>)
        requires
            self.wf(),
        ensures
            r matches Some(i) ==> lookup(self@, name@) == Some(i as int),
            r is None ==> lookup(self@, name@) is None,
    {
        let mut i: usize = 0;
        while i < self.names.len()
            invariant
                self.wf(),
                i <= self.names@.len(),
                self@.len() == self.names@.len(),
                forall|k: int| 0 <= k < i ==> self@[k] != name@,
            decreases self.names.len() - i,
        {
            if bytes_equal(self.names[i].as_slice(), name) {
                proof {
                    lemma_lookup_at(self@, i as int);
                }
                return Some(i);
            }
            i += 1;
        }
        None
    }

    /// Appends `name` under the next id; refused where the name is present.
    pub fn push(&mut self, name: &[u8]) -> (r: Option<usize>)
        requires
            old(self).wf(),
        ensures
            final(self).wf(),
            lookup(old(self)@, name@) is Some ==> r is None && final(self)@ == old(self)@,
            lookup(old(self)@, name@) is None ==> r == Some(old(self)@.len() as usize)
                && final(self)@ == old(self)@.push(name@),
    {
        match self.id_of(name) {
            Some(_) => None,
            None => {
                self.names.push(bytes_of(name));
                assert(self@ =~= old(self)@.push(name@));
                Some(self.names.len() - 1)
            },
        }
    }

    /// An independent copy with the same ids and names.
    pub fn duplicate(&self) -> (r: Dictionary)
        ensures
            r@ == self@,
    {
        let mut names: Vec<Vec<u8>> = Vec::with_capacity(self.names.len());
        let mut i: usize = 0;
        while i < self.names.len()
            invariant
                i <= self.names@.len(),
                names@.map_values(|n: Vec<u8>| n@) == self@.subrange(0, i as int),
            decreases self.names.len() - i,
        {
            let c = copy_vec(&self.names[i]);
            assert(c@ == self@[i as int]);
            let ghost before = names@;
            names.push(c);
            assert(names@ == before.push(c));
            i += 1;
            assert(names@.map_values(|n: Vec<u8>| n@) =~= self@.subrange(0, i as int)) by {
                assert(before.map_values(|n: Vec<u8>| n@) =~= self@.subrange(0, i - 1));
            }
        }
        let r = Dictionary { names };
        assert(r@ =~= self@);
        r
    }

    /// Builds a dictionary holding `names` in the given order; refused where a
    /// name repeats.
    pub fn from_names(names: &[&[u8]]) -> (r: Option<Dictionary>)
        ensures
            r is Some <==> names_unique(names@.map_values(|n: &[u8]| n@)),
            r matches Some(d) ==> d.wf() && d@ == names@.map_values(|n: &[u8]| n@),
    {
        let ghost want = names@.map_values(|n: &[u8]| n@);
        let mut d = Dictionary::new();
        let mut i: usize = 0;
        while i < names.len()
            invariant
                i <= names@.len(),
                want == names@.map_values(|n: &[u8]| n@),
                d.wf(),
                d@ == want.subrange(0, i as int),
            decreases names.len() - i,
        {
            match d.push(names[i]) {
                Some(_) => {},
                None => {
                    proof {
                        let j = lookup(d@, want[i as int]).unwrap();
                        lemma_lookup_found(d@, want[i as int]);
                        assert(want[j] == want[i as int]);
                    }
                    return None;
                },
            }
            i += 1;
            assert(d@ =~= want.subrange(0, i as int));
        }
        assert(want.subrange(0, names@.len() as int) =~= want);
        Some(d)
    }
}

} // verus!
