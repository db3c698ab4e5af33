//! String-keyed tag collections attached to decoded map objects.

use vstd::prelude::*;

verus! {

/// Compares two string slices by their character sequences.
pub fn str_eq(a: &str, b: &str) -> (r: bool)
    ensures
        r == (a@ == b@),
{
    let owned_a: String = a.to_owned();
    let owned_b: String = b.to_owned();
    owned_a == owned_b
}

/// The tags of a decoded map object: an ordered list of key/value pairs.
///
/// Lookup returns the value of the first pair whose key matches, so a
/// well-formed tag set (distinct keys) behaves as a map.
pub struct TagMap {
    pub pairs: Vec<(String, String)>,
}

impl View for TagMap {
    type V = Seq<(Seq<char>, Seq<char>)>;

    open spec fn view(&self) -> Seq<(Seq<char>, Seq<char>)> {
        self.pairs@.map_values(|p: (String, String)| (p.0@, p.1@))
    }
}

/// The value bound to `key`: the second component of the first pair whose
/// first component equals `key`, if any.
pub open spec fn spec_get(pairs: Seq<(Seq<char>, Seq<char>)>, key: Seq<char>) -> Option<
    Seq<char>,
>
    decreases pairs.len(),
{
    if pairs.len() == 0 {
        None
    } else if pairs[0].0 == key {
        Some(pairs[0].1)
    } else {
        spec_get(pairs.drop_first(), key)
    }
}

impl TagMap {
    pub fn new() -> (r: TagMap)
        ensures
            r@ == Seq::<(Seq<char>, Seq<char>)>::empty(),
    {
        let r = TagMap { pairs: Vec::new() };
        proof {
            assert(r@ =~= Seq::<(Seq<char>, Seq<char>)>::empty());
        }
        r
    }

    pub fn push(&mut self, key: String, value: String)
        ensures
            final(self)@ == old(self)@.push((key@, value@)),
    {
        let ghost before = self@;
        self.pairs.push((key, value));
        proof {
            assert(self@ =~= before.push((key@, value@)));
        }
    }

    pub fn len(&self) -> (r: usize)
        ensures
            r == self@.len(),
    {
        self.pairs.len()
    }

    /// Looks `key` up, returning the first matching value.
    pub fn get<'a>(&'a self, key: &str) -> (r: Option<&'a String>)
        ensures
            match r {
                Some(v) => spec_get(self@, key@) == Some(v@),
                None => spec_get(self@, key@) is None,
            },
    {
        let n = self.pairs.len();
        proof {
            assert(self@.skip(0) =~= self@);
        }
        for i in 0..n
            invariant
                n == self.pairs.len(),
                spec_get(self@, key@) == spec_get(self@.skip(i as int), key@),
        {
            proof {
                assert(self@.skip(i as int).drop_first() =~= self@.skip(i + 1));
            }
            if str_eq(self.pairs[i].0.as_str(), key) {
                return Some(&self.pairs[i].1);
            }
        }
        proof {
            assert(self@.skip(n as int) =~= Seq::<(Seq<char>, Seq<char>)>::empty());
        }
        None
    }

    /// Whether `key` is present with value `value`.
    pub fn contains(&self, key: &str, value: &str) -> (r: bool)
        ensures
            r == (spec_get(self@, key@) == Some(value@)),
    {
        match self.get(key) {
            Some(v) => str_eq(v.as_str(), value),
            None => false,
        }
    }

    /// Whether `key` is present at all.
    pub fn contains_key(&self, key: &str) -> (r: bool)
        ensures
            r == (spec_get(self@, key@) is Some),
    {
        self.get(key).is_some()
    }
}

} // verus!
