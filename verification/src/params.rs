//! The parameters of one processor: a map from names to values, as the
//! configuration file writes them between braces.

use vstd::prelude::*;

verus! {

/// The map that a list of `(name, value)` pairs describes when the pairs are
/// inserted one after the other: a later pair replaces an earlier one with the
/// same name.
pub open spec fn pairs_to_map(pairs: Seq<(Seq<char>, Seq<char>)>) -> Map<Seq<char>, Seq<char>>
    decreases pairs.len(),
{
    if pairs.len() == 0 {
        Map::empty()
    } else {
        pairs_to_map(pairs.drop_last()).insert(pairs.last().0, pairs.last().1)
    }
}

/// No name occurs twice in the list.
pub open spec fn distinct_names(pairs: Seq<(Seq<char>, Seq<char>)>) -> bool {
    forall|i: int, j: int|
        0 <= i < pairs.len() && 0 <= j < pairs.len() && i != j ==> #[trigger] pairs[i].0
            != #[trigger] pairs[j].0
}

/// The views of a vector of pairs of strings.
pub open spec fn pair_views(v: Seq<(String, String)>) -> Seq<(Seq<char>, Seq<char>)> {
    v.map_values(|e: (String, String)| (e.0@, e.1@))
}

/// The names of `pairs` are exactly the keys of the map they describe.
pub proof fn lemma_pairs_to_map_dom(pairs: Seq<(Seq<char>, Seq<char>)>, k: Seq<char>)
    ensures
        pairs_to_map(pairs).dom().contains(k) <==> exists|i: int|
            0 <= i < pairs.len() && #[trigger] pairs[i].0 == k,
    decreases pairs.len(),
{
    if pairs.len() > 0 {
        let init = pairs.drop_last();
        lemma_pairs_to_map_dom(init, k);
        if pairs_to_map(pairs).dom().contains(k) && pairs.last().0 != k {
            let i = choose|i: int| 0 <= i < init.len() && #[trigger] init[i].0 == k;
            assert(pairs[i].0 == k);
        }
        if exists|i: int| 0 <= i < pairs.len() && #[trigger] pairs[i].0 == k {
            let i = choose|i: int| 0 <= i < pairs.len() && #[trigger] pairs[i].0 == k;
            if i < pairs.len() - 1 {
                assert(init[i].0 == k);
            }
        }
    }
}

/// A name that occurs more than once takes the value of its last pair: the
/// later of two parameters with the same name wins.
pub proof fn lemma_later_value_wins(pairs: Seq<(Seq<char>, Seq<char>)>, i: int)
    requires
        0 <= i < pairs.len(),
        forall|j: int| i < j < pairs.len() ==> #[trigger] pairs[j].0 != pairs[i].0,
    ensures
        pairs_to_map(pairs).dom().contains(pairs[i].0),
        pairs_to_map(pairs)[pairs[i].0] == pairs[i].1,
    decreases pairs.len(),
{
    if i < pairs.len() - 1 {
        let init = pairs.drop_last();
        assert(init[i] == pairs[i]);
        assert forall|j: int| i < j < init.len() implies #[trigger] init[j].0 != init[i].0 by {
            assert(init[j] == pairs[j]);
        }
        lemma_later_value_wins(init, i);
        assert(pairs[pairs.len() - 1].0 != pairs[i].0);
    }
}

/// With distinct names, the map gives each name the value that its pair holds.
pub proof fn lemma_pairs_to_map_value(pairs: Seq<(Seq<char>, Seq<char>)>, i: int)
    requires
        distinct_names(pairs),
        0 <= i < pairs.len(),
    ensures
        pairs_to_map(pairs).dom().contains(pairs[i].0),
        pairs_to_map(pairs)[pairs[i].0] == pairs[i].1,
    decreases pairs.len(),
{
    if i < pairs.len() - 1 {
        let init = pairs.drop_last();
        assert(init[i] == pairs[i]);
        assert(distinct_names(init));
        lemma_pairs_to_map_value(init, i);
        assert(pairs[i].0 != pairs.last().0);
    }
}

/// Replacing the value of the pair at `i` updates the map at that name.
pub proof fn lemma_pairs_to_map_update(
    pairs: Seq<(Seq<char>, Seq<char>)>,
    i: int,
    v: Seq<char>,
)
    requires
        distinct_names(pairs),
        0 <= i < pairs.len(),
    ensures
        pairs_to_map(pairs.update(i, (pairs[i].0, v))) =~= pairs_to_map(pairs).insert(
            pairs[i].0,
            v,
        ),
    decreases pairs.len(),
{
    let k = pairs[i].0;
    let upd = pairs.update(i, (k, v));
    if i == pairs.len() - 1 {
        assert(upd.drop_last() =~= pairs.drop_last());
        let init = pairs.drop_last();
        lemma_pairs_to_map_dom(init, k);
        assert(!pairs_to_map(init).dom().contains(k)) by {
            if pairs_to_map(init).dom().contains(k) {
                let j = choose|j: int| 0 <= j < init.len() && #[trigger] init[j].0 == k;
                assert(pairs[j].0 == k);
            }
        }
    } else {
        let init = pairs.drop_last();
        assert(upd.drop_last() =~= init.update(i, (k, v)));
        assert(init[i] == pairs[i]);
        assert(distinct_names(init));
        lemma_pairs_to_map_update(init, i, v);
        assert(pairs.last().0 != k);
    }
}

/// The parameters given to one processor: each name with its value.
pub struct Params {
    entries: Vec<(String, String)>,
}

impl View for Params {
    type V = Map<Seq<char>, Seq<char>>;

    closed spec fn view(&self) -> Map<Seq<char>, Seq<char>> {
        pairs_to_map(pair_views(self.entries@))
    }
}

impl Params {
    #[verifier::type_invariant]
    spec fn names_are_distinct(&self) -> bool {
        distinct_names(pair_views(self.entries@))
    }

    /// No parameters.
    pub fn new() -> (res: Params)
        ensures
            res@ == Map::<Seq<char>, Seq<char>>::empty(),
    {
        let res = Params { entries: Vec::new() };
        assert(pair_views(res.entries@) =~= Seq::empty());
        res
    }

    fn position_of(&self, key: &String) -> (res: Option<usize>)
        ensures
            res matches Some(i) ==> i < self.entries@.len() && self.entries@[i as int].0@ == key@,
            res is None ==> forall|i: int|
                0 <= i < self.entries@.len() ==> #[trigger] self.entries@[i].0@ != key@,
    {
        let mut i: usize = 0;
        while i < self.entries.len()
            invariant
                i <= self.entries@.len(),
                forall|j: int| 0 <= j < i ==> #[trigger] self.entries@[j].0@ != key@,
            decreases self.entries@.len() - i,
        {
            if self.entries[i].0 == *key {
                return Some(i);
            }
            i = i + 1;
        }
        None
    }

    /// Sets `key` to `value`, replacing the value it had.
    pub fn insert(&mut self, key: String, value: String)
        ensures
            final(self)@ == old(self)@.insert(key@, value@),
    {
        proof {
            use_type_invariant(&*self);
        }
        let ghost old_views = pair_views(self.entries@);
        let found = self.position_of(&key);
        let mut entries: Vec<(String, String)> = Vec::new();
        std::mem::swap(&mut entries, &mut self.entries);
        match found {
            Some(i) => {
                let ghost k = key@;
                entries.set(i, (key, value));
                proof {
                    assert(pair_views(entries@) =~= old_views.update(i as int, (k, value@)));
                    assert(old_views[i as int].0 == k);
                    lemma_pairs_to_map_update(old_views, i as int, value@);
                }
            },
            None => {
                let ghost k = key@;
                entries.push((key, value));
                proof {
                    assert(pair_views(entries@) =~= old_views.push((k, value@)));
                    assert(pair_views(entries@).drop_last() =~= old_views);
                    assert forall|a: int, b: int|
                        0 <= a < pair_views(entries@).len() && 0 <= b < pair_views(
                            entries@,
                        ).len() && a != b implies #[trigger] pair_views(entries@)[a].0
                        != #[trigger] pair_views(entries@)[b].0 by {
                        if a < old_views.len() && b < old_views.len() {
                            assert(old_views[a] == pair_views(entries@)[a]);
                            assert(old_views[b] == pair_views(entries@)[b]);
                        } else if a < old_views.len() {
                            assert(entries@[a].0@ != k);
                        } else {
                            assert(entries@[b].0@ != k);
                        }
                    }
                }
            },
        }
        self.entries = entries;
    }

    /// The value of `key`, if it has one.
    pub fn get(&self, key: &str) -> (res: Option<&String>)
        ensures
            res is Some <==> self@.dom().contains(key@),
            res matches Some(v) ==> self@[key@] == v@,
    {
        proof {
            use_type_invariant(self);
        }
        let k = key.to_owned();
        let ghost views = pair_views(self.entries@);
        proof {
            lemma_pairs_to_map_dom(views, key@);
        }
        match self.position_of(&k) {
            Some(i) => {
                proof {
                    assert(views[i as int].0 == key@);
                    lemma_pairs_to_map_value(views, i as int);
                }
                Some(&self.entries[i].1)
            },
            None => {
                proof {
                    if self@.dom().contains(key@) {
                        let j = choose|j: int| 0 <= j < views.len() && #[trigger] views[j].0 == key@;
                        assert(self.entries@[j].0@ == key@);
                    }
                }
                None
            },
        }
    }

    /// Whether `key` has a value.
    pub fn contains_key(&self, key: &str) -> (res: bool)
        ensures
            res == self@.dom().contains(key@),
    {
        self.get(key).is_some()
    }

    /// The parameters as a list of pairs, each name once; the list describes
    /// exactly the parameters' map.
    pub fn as_pairs(&self) -> (res: &Vec<(String, String)>)
        ensures
            pairs_to_map(pair_views(res@)) == self@,
            distinct_names(pair_views(res@)),
    {
        proof {
            use_type_invariant(self);
        }
        &self.entries
    }
}

} // verus!
