//! A hash value: fields mapped to texts, each field once.
use vstd::prelude::*;
use crate::assoc::{find_key, has_key, keys_of, lemma_key_at, lemma_put, lemma_remove_key, lookup, put, remove_key, unique_keys, values_of};

verus! {

/// Field-value pairs, each field once, in the order the fields were added.
#[derive(Debug)]
pub struct HashStore {
    fields: Vec<(String, String)>,
}

pub open spec fn pair_view(p: (String, String)) -> (Seq<char>, Seq<char>) {
    (p.0@, p.1@)
}

impl View for HashStore {
    type V = Seq<(Seq<char>, Seq<char>)>;

    closed spec fn view(&self) -> Seq<(Seq<char>, Seq<char>)> {
        self.fields@.map_values(|p: (String, String)| pair_view(p))
    }
}

/// Copies of the pairs, in order.
fn copy_pairs(v: &Vec<(String, String)>) -> (r: Vec<(String, String)>)
    ensures
        r@.map_values(|p: (String, String)| pair_view(p)) == v@.map_values(
            |p: (String, String)| pair_view(p),
        ),
{
    let mut r: Vec<(String, String)> = Vec::new();
    let mut i: usize = 0;
    while i < v.len()
        invariant
            i <= v@.len(),
            r@.len() == i,
            forall|j: int| 0 <= j < i ==> pair_view(#[trigger] r@[j]) == pair_view(v@[j]),
        decreases v@.len() - i,
    {
        r.push((v[i].0.clone(), v[i].1.clone()));
        i = i + 1;
    }
    assert(r@.map_values(|p: (String, String)| pair_view(p)) =~= v@.map_values(
        |p: (String, String)| pair_view(p),
    ));
    r
}

impl HashStore {
    pub open spec fn wf(&self) -> bool {
        unique_keys(self@)
    }

    pub fn new() -> (r: HashStore)
        ensures
            r.wf(),
            r@ == Seq::<(Seq<char>, Seq<char>)>::empty(),
    {
        let r = HashStore { fields: Vec::new() };
        assert(r@ =~= Seq::<(Seq<char>, Seq<char>)>::empty());
        r
    }

    /// Sets `field` to `value`; true when the field is new.
    pub fn set_field(&mut self, field: &str, value: &str) -> (r: bool)
        requires
            old(self).wf(),
        ensures
            final(self).wf(),
            final(self)@ == put(old(self)@, field@, value@),
            r == !has_key(old(self)@, field@),
    {
        match find_key(&self.fields, field) {
            Some(i) => {
                proof {
                    lemma_key_at(self@, i as int);
                }
                self.fields.set(i, (field.to_owned(), value.to_owned()));
                assert(self@ =~= put(old(self)@, field@, value@));
                proof {
                    lemma_put(old(self)@, field@, value@);
                }
                false
            },
            None => {
                assert(!has_key(self@, field@));
                self.fields.push((field.to_owned(), value.to_owned()));
                assert(self@ =~= put(old(self)@, field@, value@));
                proof {
                    lemma_put(old(self)@, field@, value@);
                }
                true
            },
        }
    }

    pub fn get_field(&self, field: &str) -> (r: Option<&String>)
        requires
            self.wf(),
        ensures
            match r {
                Some(v) => lookup(self@, field@) == Some(v@),
                None => lookup(self@, field@) is None,
            },
    {
        match find_key(&self.fields, field) {
            Some(i) => {
                proof {
                    lemma_key_at(self@, i as int);
                }
                Some(&self.fields[i].1)
            },
            None => {
                assert(!has_key(self@, field@));
                None
            },
        }
    }

    /// All field-value pairs, in field order.
    pub fn get_all_fields(&self) -> (r: Vec<(String, String)>)
        ensures
            r@.map_values(|p: (String, String)| pair_view(p)) == self@,
    {
        copy_pairs(&self.fields)
    }

    /// Removes `field`; true when it was there.
    pub fn delete_field(&mut self, field: &str) -> (r: bool)
        requires
            old(self).wf(),
        ensures
            final(self).wf(),
            final(self)@ == remove_key(old(self)@, field@),
            r == has_key(old(self)@, field@),
    {
        proof {
            lemma_remove_key(self@, field@);
        }
        match find_key(&self.fields, field) {
            Some(i) => {
                proof {
                    lemma_key_at(self@, i as int);
                }
                self.fields.remove(i);
                assert(self@ =~= remove_key(old(self)@, field@));
                true
            },
            None => {
                assert(!has_key(self@, field@));
                false
            },
        }
    }

    pub fn exists_field(&self, field: &str) -> (r: bool)
        requires
            self.wf(),
        ensures
            r == has_key(self@, field@),
    {
        match find_key(&self.fields, field) {
            Some(i) => {
                proof {
                    lemma_key_at(self@, i as int);
                }
                true
            },
            None => {
                assert(!has_key(self@, field@));
                false
            },
        }
    }

    /// The fields, in order.
    pub fn get_keys(&self) -> (r: Vec<String>)
        ensures
            r@.map_values(|s: String| s@) == keys_of(self@),
    {
        let mut r: Vec<String> = Vec::new();
        let mut i: usize = 0;
        while i < self.fields.len()
            invariant
                i <= self.fields@.len(),
                r@.len() == i,
                forall|j: int| 0 <= j < i ==> (#[trigger] r@[j])@ == self.fields@[j].0@,
            decreases self.fields@.len() - i,
        {
            r.push(self.fields[i].0.clone());
            i = i + 1;
        }
        assert(r@.map_values(|s: String| s@) =~= keys_of(self@));
        r
    }

    /// The values, in field order.
    pub fn get_values(&self) -> (r: Vec<String>)
        ensures
            r@.map_values(|s: String| s@) == values_of(self@),
    {
        let mut r: Vec<String> = Vec::new();
        let mut i: usize = 0;
        while i < self.fields.len()
            invariant
                i <= self.fields@.len(),
                r@.len() == i,
                forall|j: int| 0 <= j < i ==> (#[trigger] r@[j])@ == self.fields@[j].1@,
            decreases self.fields@.len() - i,
        {
            r.push(self.fields[i].1.clone());
            i = i + 1;
        }
        assert(r@.map_values(|s: String| s@) =~= values_of(self@));
        r
    }

    pub fn len(&self) -> (r: usize)
        ensures
            r == self@.len(),
    {
        self.fields.len()
    }
}

} // verus!
