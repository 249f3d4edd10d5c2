//! A map from texts to texts, kept in the order of its keys.
use vstd::prelude::*;

use crate::order::{ascending, place_of, text_lt};
use crate::text::views;

verus! {

/// The keys of a list of pairs.
pub open spec fn keys_of(pairs: Seq<(String, String)>) -> Seq<Seq<char>> {
    pairs.map_values(|pair: (String, String)| pair.0@)
}

/// A map from texts to texts.
#[derive(Debug)]
pub struct TextMap {
    keys: Vec<String>,
    values: Vec<String>,
}

impl TextMap {
    #[verifier::type_invariant]
    spec fn sound(self) -> bool {
        &&& self.keys@.len() == self.values@.len()
        &&& ascending(views(self.keys@))
    }
}

spec fn index_in(keys: Seq<String>, key: Seq<char>) -> int {
    choose|i: int| 0 <= i < keys.len() && #[trigger] keys[i]@ == key
}

spec fn paired(keys: Seq<String>, values: Seq<String>) -> Map<Seq<char>, Seq<char>> {
    Map::new(
        |k: Seq<char>| exists|i: int| 0 <= i < keys.len() && #[trigger] keys[i]@ == k,
        |k: Seq<char>| values[index_in(keys, k)]@,
    )
}

proof fn lemma_paired(keys: Seq<String>, values: Seq<String>, i: int)
    requires
        keys.len() == values.len(),
        ascending(views(keys)),
        0 <= i < keys.len(),
    ensures
        paired(keys, values).dom().contains(keys[i]@),
        paired(keys, values)[keys[i]@] == values[i]@,
{
    crate::order::lemma_text_order();
    let lt = |a: Seq<char>, b: Seq<char>| text_lt(a, b);
    let k = keys[i]@;
    let j = index_in(keys, k);
    let all = views(keys);
    assert(all[i] == k && all[j] == k);
    if i < j {
        assert(lt(all[i], all[j]));
    }
    if j < i {
        assert(lt(all[j], all[i]));
    }
}

impl View for TextMap {
    type V = Map<Seq<char>, Seq<char>>;

    closed spec fn view(&self) -> Map<Seq<char>, Seq<char>> {
        paired(self.keys@, self.values@)
    }
}

impl TextMap {
    /// A map without entries.
    pub fn new() -> (r: TextMap)
        ensures
            r@ == Map::<Seq<char>, Seq<char>>::empty(),
    {
        let r = TextMap { keys: Vec::new(), values: Vec::new() };
        assert(r@ =~= Map::<Seq<char>, Seq<char>>::empty());
        r
    }

    /// A map with the same entries.
    pub fn copy(&self) -> (r: TextMap)
        ensures
            r@ == self@,
    {
        proof {
            use_type_invariant(self);
        }
        let mut keys: Vec<String> = Vec::new();
        let mut values: Vec<String> = Vec::new();
        let mut i: usize = 0;
        while i < self.keys.len()
            invariant
                i <= self.keys@.len(),
                self.sound(),
                keys@ == self.keys@.take(i as int),
                values@ == self.values@.take(i as int),
            decreases self.keys@.len() - i,
        {
            keys.push(self.keys[i].clone());
            values.push(self.values[i].clone());
            assert(keys@ =~= self.keys@.take(i + 1));
            assert(values@ =~= self.values@.take(i + 1));
            i += 1;
        }
        assert(keys@ =~= self.keys@);
        assert(values@ =~= self.values@);
        TextMap { keys, values }
    }

    /// Sets the value of a key.
    pub fn insert(&mut self, key: &str, value: &str)
        ensures
            final(self)@ == old(self)@.insert(key@, value@),
    {
        proof {
            use_type_invariant(&*self);
        }
        let ghost before = *self;
        let mut taken = TextMap { keys: Vec::new(), values: Vec::new() };
        std::mem::swap(&mut taken, self);
        let TextMap { mut keys, mut values } = taken;
        let (at, here) = place_of(&keys, key);
        if here {
            values[at] = value.to_owned();
        } else {
            keys.insert(at, key.to_owned());
            values.insert(at, value.to_owned());
        }
        proof {
            let was = views(before.keys@);
            let now = views(keys@);
            if !here {
                assert(now =~= was.insert(at as int, key@));
                assert forall|i: int, j: int| 0 <= i < j < now.len() implies text_lt(
                    #[trigger] now[i],
                    #[trigger] now[j],
                ) by {
                    let p = if i < at { i } else { i - 1 };
                    let q = if j < at { j } else { j - 1 };
                    if i == at {
                        assert(before.keys@[q]@ == now[j]);
                    } else if j == at {
                        assert(before.keys@[p]@ == now[i]);
                    } else {
                        assert(text_lt(was[p], was[q]));
                    }
                }
            }
            let goal = before@.insert(key@, value@);
            let got = paired(keys@, values@);
            assert forall|k: Seq<char>| got.dom().contains(k) == goal.dom().contains(k) by {
                if got.dom().contains(k) && k != key@ {
                    let i = choose|i: int| 0 <= i < keys@.len() && #[trigger] keys@[i]@ == k;
                    let p = if here || i < at { i } else { i - 1 };
                    assert(before.keys@[p]@ == k);
                }
                if before@.dom().contains(k) {
                    let i = choose|i: int| 0 <= i < before.keys@.len() && #[trigger] before.keys@[i]@ == k;
                    let p = if here || i < at { i } else { i + 1 };
                    assert(keys@[p]@ == k);
                }
                if k == key@ {
                    assert(keys@[at as int]@ == k);
                }
            }
            assert forall|k: Seq<char>| got.dom().contains(k) implies got[k] == goal[k] by {
                let i = choose|i: int| 0 <= i < keys@.len() && #[trigger] keys@[i]@ == k;
                lemma_paired(keys@, values@, i);
                if k == key@ {
                    lemma_paired(keys@, values@, at as int);
                } else {
                    let p = if here || i < at { i } else { i - 1 };
                    assert(before.keys@[p]@ == k);
                    lemma_paired(before.keys@, before.values@, p);
                }
            }
            assert(got =~= goal);
        }
        *self = TextMap { keys, values };
    }

    /// The value of a key.
    pub fn get(&self, key: &str) -> (r: Option<String>)
        ensures
            match r {
                Some(value) => self@.dom().contains(key@) && self@[key@] == value@,
                None => !self@.dom().contains(key@),
            },
    {
        proof {
            use_type_invariant(self);
        }
        let (at, here) = place_of(&self.keys, key);
        if here {
            proof {
                lemma_paired(self.keys@, self.values@, at as int);
            }
            Some(self.values[at].clone())
        } else {
            proof {
                if self@.dom().contains(key@) {
                    let i = choose|i: int| 0 <= i < self.keys@.len() && #[trigger] self.keys@[i]@ == key@;
                    assert(views(self.keys@)[i] == key@);
                }
            }
            None
        }
    }

    /// The entries, in the order of their keys.
    pub fn pairs(&self) -> (r: Vec<(String, String)>)
        ensures
            ascending(keys_of(r@)),
            forall|i: int|
                0 <= i < r@.len() ==> self@.dom().contains((#[trigger] r@[i]).0@) && self@[r@[i].0@]
                    == r@[i].1@,
            keys_of(r@).to_set() == self@.dom(),
    {
        proof {
            use_type_invariant(self);
        }
        let mut r: Vec<(String, String)> = Vec::new();
        let mut i: usize = 0;
        while i < self.keys.len()
            invariant
                i <= self.keys@.len(),
                self.sound(),
                keys_of(r@) =~= views(self.keys@).take(i as int),
                r@.len() == i,
                forall|j: int|
                    0 <= j < i ==> (#[trigger] r@[j]).0@ == self.keys@[j]@ && r@[j].1@ == self.values@[j]@,
            decreases self.keys@.len() - i,
        {
            r.push((self.keys[i].clone(), self.values[i].clone()));
            i += 1;
        }
        proof {
            assert(views(self.keys@).take(i as int) =~= views(self.keys@));
            assert forall|i: int| 0 <= i < r@.len() implies self@.dom().contains((#[trigger] r@[i]).0@)
                && self@[r@[i].0@] == r@[i].1@ by {
                lemma_paired(self.keys@, self.values@, i);
            }
            assert forall|k: Seq<char>| keys_of(r@).contains(k) == self@.dom().contains(k) by {
                if keys_of(r@).contains(k) {
                    let i = choose|i: int| 0 <= i < keys_of(r@).len() && keys_of(r@)[i] == k;
                    assert(self.keys@[i]@ == k);
                }
                if self@.dom().contains(k) {
                    let i = choose|i: int| 0 <= i < self.keys@.len() && #[trigger] self.keys@[i]@ == k;
                    assert(keys_of(r@)[i] == k);
                }
            }
            assert(keys_of(r@).to_set() =~= self@.dom());
        }
        r
    }
}

} // verus!
