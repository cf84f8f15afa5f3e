//! The extracted hydration state: a map from keys to JSON values.

use vstd::prelude::*;

use crate::devalue::{deserialize_devalue, devalue, devalue_shaped, is_devalue_format};
use crate::json::{json_model, lemma_member_models, member_models, Json, JsonValue};

verus! {

/// The map that a list of `(key, value)` pairs stands for, later pairs
/// overriding earlier ones.
pub open spec fn pairs_map(s: Seq<(Seq<char>, Json)>) -> Map<Seq<char>, Json>
    decreases s.len(),
{
    if s.len() == 0 {
        Map::empty()
    } else {
        pairs_map(s.drop_last()).insert(s.last().0, s.last().1)
    }
}

/// No key occurs twice in the list.
pub open spec fn distinct_keys(s: Seq<(Seq<char>, Json)>) -> bool {
    forall|i: int, j: int| 0 <= i < j < s.len() ==> #[trigger] s[i].0 != #[trigger] s[j].0
}

/// The map holds exactly the keys of the list.
pub proof fn lemma_pairs_map_dom(s: Seq<(Seq<char>, Json)>, k: Seq<char>)
    ensures
        pairs_map(s).dom().contains(k) <==> exists|i: int| 0 <= i < s.len() && #[trigger] s[i].0 == k,
    decreases s.len(),
{
    if s.len() > 0 {
        lemma_pairs_map_dom(s.drop_last(), k);
        if pairs_map(s).dom().contains(k) && s.last().0 != k {
            let i = choose|i: int| 0 <= i < s.drop_last().len() && #[trigger] s.drop_last()[i].0 == k;
            assert(s[i].0 == k);
        }
        if exists|i: int| 0 <= i < s.len() && #[trigger] s[i].0 == k {
            let i = choose|i: int| 0 <= i < s.len() && #[trigger] s[i].0 == k;
            if i < s.len() - 1 {
                assert(s.drop_last()[i].0 == k);
            }
        }
    }
}

/// With distinct keys, the map gives each key the value paired with it.
pub proof fn lemma_pairs_map_value(s: Seq<(Seq<char>, Json)>, i: int)
    requires
        distinct_keys(s),
        0 <= i < s.len(),
    ensures
        pairs_map(s).dom().contains(s[i].0),
        pairs_map(s)[s[i].0] == s[i].1,
    decreases s.len(),
{
    if i < s.len() - 1 {
        assert(s.drop_last()[i] == s[i]);
        assert(distinct_keys(s.drop_last())) by {
            assert forall|a: int, b: int|
                0 <= a < b < s.drop_last().len() implies #[trigger] s.drop_last()[a].0
                != #[trigger] s.drop_last()[b].0 by {
                assert(s.drop_last()[a] == s[a] && s.drop_last()[b] == s[b]);
            }
        }
        lemma_pairs_map_value(s.drop_last(), i);
        assert(s[i].0 != s.last().0);
    }
}

/// The hydration state found in a document: each key at most once.
pub struct HydrationState {
    entries: Vec<(String, JsonValue)>,
}

impl HydrationState {
    #[verifier::type_invariant]
    spec fn keys_distinct(self) -> bool {
        distinct_keys(member_models(self.entries@))
    }

    /// The entries as models, in the order in which they are kept.
    pub closed spec fn entry_models(self) -> Seq<(Seq<char>, Json)> {
        member_models(self.entries@)
    }
}

impl View for HydrationState {
    type V = Map<Seq<char>, Json>;

    closed spec fn view(&self) -> Map<Seq<char>, Json> {
        pairs_map(member_models(self.entries@))
    }
}

/// The value that a hydration entry gets once devalue output is recognised:
/// an array that looks like devalue output becomes the value it stands for.
pub open spec fn postprocess(v: Json) -> Json {
    match v {
        Json::Array(items) => if devalue_shaped(items) {
            match devalue(items) {
                Some(d) => d,
                None => v,
            }
        } else {
            v
        },
        _ => v,
    }
}

/// Each value of the map post-processed.
pub open spec fn postprocess_map(m: Map<Seq<char>, Json>) -> Map<Seq<char>, Json> {
    Map::new(|k: Seq<char>| m.dom().contains(k), |k: Seq<char>| postprocess(m[k]))
}

impl HydrationState {
    /// An empty state.
    pub fn new() -> (r: HydrationState)
        ensures
            r@ == Map::<Seq<char>, Json>::empty(),
    {
        let r = HydrationState { entries: Vec::new() };
        proof {
            assert(member_models(r.entries@) =~= Seq::<(Seq<char>, Json)>::empty());
        }
        r
    }

    proof fn lemma_view(self)
        requires
            distinct_keys(member_models(self.entries@)),
        ensures
            forall|k: Seq<char>|
                #![trigger self@.dom().contains(k)]
                self@.dom().contains(k) <==> exists|i: int|
                    0 <= i < self.entries@.len() && #[trigger] self.entries@[i].0@ == k,
            forall|i: int|
                0 <= i < self.entries@.len() ==> #[trigger] self@[self.entries@[i].0@]
                    == json_model(self.entries@[i].1),
    {
        let ms = member_models(self.entries@);
        lemma_member_models(self.entries@);
        assert forall|k: Seq<char>| #![trigger self@.dom().contains(k)] self@.dom().contains(k)
            <==> exists|i: int| 0 <= i < self.entries@.len() && #[trigger] self.entries@[i].0@ == k by {
            lemma_pairs_map_dom(ms, k);
            if self@.dom().contains(k) {
                let i = choose|i: int| 0 <= i < ms.len() && #[trigger] ms[i].0 == k;
                assert(self.entries@[i].0@ == k);
            }
            if exists|i: int| 0 <= i < self.entries@.len() && #[trigger] self.entries@[i].0@ == k {
                let i = choose|i: int| 0 <= i < self.entries@.len() && #[trigger] self.entries@[i].0@ == k;
                assert(ms[i].0 == k);
            }
        }
        assert forall|i: int| 0 <= i < self.entries@.len() implies #[trigger] self@[self.entries@[i].0@]
            == json_model(self.entries@[i].1) by {
            lemma_pairs_map_value(ms, i);
        }
    }

    /// The position of `key` among the entries, if it is there.
    fn find(&self, key: &str) -> (r: Option<usize>)
        ensures
            match r {
                Some(i) => i < self.entries@.len() && self.entries@[i as int].0@ == key@,
                None => forall|i: int| 0 <= i < self.entries@.len() ==> self.entries@[i].0@ != key@,
            },
    {
        let owned = key.to_owned();
        let mut i: usize = 0;
        while i < self.entries.len()
            invariant
                owned@ == key@,
                i <= self.entries@.len(),
                forall|j: int| 0 <= j < i ==> self.entries@[j].0@ != key@,
            decreases self.entries.len() - i,
        {
            if self.entries[i].0 == owned {
                return Some(i);
            }
            i = i + 1;
        }
        None
    }

    /// Sets the value of `key`, replacing any earlier value.
    pub fn insert(&mut self, key: String, value: JsonValue)
        ensures
            final(self)@ == old(self)@.insert(key@, value@),
    {
        proof {
            use_type_invariant(&*self);
            self.lemma_view();
            lemma_member_models(self.entries@);
        }
        let ghost old_self = *self;
        let found = self.find(key.as_str());
        let mut entries: Vec<(String, JsonValue)> = Vec::new();
        std::mem::swap(&mut entries, &mut self.entries);
        let ghost k = key@;
        let ghost v = value@;
        match found {
            Some(i) => {
                entries.set(i, (key, value));
            },
            None => {
                entries.push((key, value));
            },
        }
        proof {
            lemma_member_models(entries@);
            let ms = member_models(entries@);
            assert(distinct_keys(ms)) by {
                assert forall|a: int, b: int| 0 <= a < b < ms.len() implies #[trigger] ms[a].0
                    != #[trigger] ms[b].0 by {
                    if found is None {
                        if b == ms.len() - 1 {
                            assert(old_self.entries@[a].0@ != k);
                        } else {
                            assert(member_models(old_self.entries@)[a].0 != member_models(
                                old_self.entries@,
                            )[b].0);
                        }
                    } else {
                        let i = found->0 as int;
                        assert(member_models(old_self.entries@)[a].0 == ms[a].0);
                        assert(member_models(old_self.entries@)[b].0 == ms[b].0);
                    }
                }
            }
        }
        self.entries = entries;
        proof {
            self.lemma_view();
            assert(self@ =~= old_self@.insert(k, v)) by {
                assert forall|key2: Seq<char>| #[trigger]
                    self@.dom().contains(key2) == old_self@.insert(k, v).dom().contains(key2) by {
                    if self@.dom().contains(key2) {
                        let i = choose|i: int|
                            0 <= i < self.entries@.len() && #[trigger] self.entries@[i].0@ == key2;
                        if key2 != k {
                            assert(old_self.entries@[i].0@ == key2);
                        }
                    }
                    if old_self@.dom().contains(key2) && key2 != k {
                        let i = choose|i: int|
                            0 <= i < old_self.entries@.len() && #[trigger] old_self.entries@[i].0@
                                == key2;
                        assert(self.entries@[i].0@ == key2);
                    }
                    if key2 == k {
                        match found {
                            Some(i) => {
                                assert(self.entries@[i as int].0@ == k);
                            },
                            None => {
                                assert(self.entries@[self.entries@.len() - 1].0@ == k);
                            },
                        }
                    }
                }
                assert forall|key2: Seq<char>| #[trigger]
                    self@.dom().contains(key2) implies self@[key2] == old_self@.insert(
                    k,
                    v,
                )[key2] by {
                    let i = choose|i: int|
                        0 <= i < self.entries@.len() && #[trigger] self.entries@[i].0@ == key2;
                    assert(self@[self.entries@[i].0@] == json_model(self.entries@[i].1));
                    let ms = member_models(self.entries@);
                    if key2 == k {
                        match found {
                            Some(j) => {
                                if i != j as int {
                                    assert(ms[i].0 == ms[j as int].0);
                                }
                            },
                            None => {
                                let last = self.entries@.len() - 1;
                                if i != last {
                                    assert(ms[i].0 == ms[last].0);
                                }
                            },
                        }
                    }
                    if key2 != k {
                        assert(old_self.entries@[i] == self.entries@[i]);
                        assert(old_self@[old_self.entries@[i].0@] == json_model(
                            old_self.entries@[i].1,
                        ));
                    }
                }
            }
        }
    }

    /// The value of `key`, if any.
    pub fn get(&self, key: &str) -> (r: Option<&JsonValue>)
        ensures
            match r {
                Some(v) => self@.dom().contains(key@) && self@[key@] == v@,
                None => !self@.dom().contains(key@),
            },
    {
        proof {
            use_type_invariant(self);
            self.lemma_view();
        }
        match self.find(key) {
            Some(i) => Some(&self.entries[i].1),
            None => None,
        }
    }

    /// The number of keys.
    pub fn len(&self) -> (r: usize)
        ensures
            r == self@.dom().len(),
    {
        proof {
            use_type_invariant(self);
            self.lemma_view();
            lemma_member_models(self.entries@);
            lemma_distinct_pairs_len(member_models(self.entries@));
        }
        self.entries.len()
    }

    /// Whether `key` has a value.
    pub fn contains_key(&self, key: &str) -> (r: bool)
        ensures
            r == self@.dom().contains(key@),
    {
        self.get(key).is_some()
    }

    /// The entries, each key once, in the order in which they were first set.
    pub fn into_entries(self) -> (r: Vec<(String, JsonValue)>)
        ensures
            distinct_keys(member_models(r@)),
            pairs_map(member_models(r@)) == self@,
    {
        proof {
            use_type_invariant(&self);
        }
        self.entries
    }

    /// Replaces each array that looks like devalue output by the value it
    /// stands for; every other value, and the set of keys, stay as they are.
    pub fn resolve_devalue_entries(&mut self)
        ensures
            final(self)@ == postprocess_map(old(self)@),
    {
        proof {
            use_type_invariant(&*self);
            self.lemma_view();
        }
        let ghost old_self = *self;
        let mut entries: Vec<(String, JsonValue)> = Vec::new();
        std::mem::swap(&mut entries, &mut self.entries);
        let n = entries.len();
        let mut i: usize = 0;
        while i < n
            invariant
                n == entries@.len(),
                i <= n,
                entries@.len() == old_self.entries@.len(),
                forall|j: int|
                    0 <= j < entries@.len() ==> #[trigger] entries@[j].0@ == old_self.entries@[j].0@,
                forall|j: int|
                    0 <= j < i ==> #[trigger] json_model(entries@[j].1) == postprocess(
                        json_model(old_self.entries@[j].1),
                    ),
                forall|j: int| i <= j < n ==> #[trigger] entries@[j] == old_self.entries@[j],
            decreases n - i,
        {
            let replacement = match &entries[i].1 {
                JsonValue::Array(arr) => {
                    if is_devalue_format(arr.as_slice()) {
                        deserialize_devalue(arr.as_slice())
                    } else {
                        None
                    }
                },
                _ => None,
            };
            match replacement {
                Some(d) => {
                    let key = entries[i].0.clone();
                    entries.set(i, (key, d));
                },
                None => {},
            }
            i = i + 1;
        }
        proof {
            lemma_member_models(entries@);
            lemma_member_models(old_self.entries@);
            let ms = member_models(entries@);
            assert forall|a: int, b: int| 0 <= a < b < ms.len() implies #[trigger] ms[a].0
                != #[trigger] ms[b].0 by {
                assert(member_models(old_self.entries@)[a].0 != member_models(
                    old_self.entries@,
                )[b].0);
            }
        }
        self.entries = entries;
        proof {
            self.lemma_view();
            assert(self@ =~= postprocess_map(old_self@)) by {
                assert forall|k: Seq<char>| #[trigger]
                    self@.dom().contains(k) == postprocess_map(old_self@).dom().contains(k) by {
                    if self@.dom().contains(k) {
                        let i = choose|i: int|
                            0 <= i < self.entries@.len() && #[trigger] self.entries@[i].0@ == k;
                        assert(old_self.entries@[i].0@ == k);
                    }
                    if old_self@.dom().contains(k) {
                        let i = choose|i: int|
                            0 <= i < old_self.entries@.len() && #[trigger] old_self.entries@[i].0@
                                == k;
                        assert(self.entries@[i].0@ == k);
                    }
                }
                assert forall|k: Seq<char>| #[trigger]
                    self@.dom().contains(k) implies self@[k] == postprocess_map(old_self@)[k] by {
                    let i = choose|i: int|
                        0 <= i < self.entries@.len() && #[trigger] self.entries@[i].0@ == k;
                    assert(self@[self.entries@[i].0@] == json_model(self.entries@[i].1));
                    assert(old_self.entries@[i].0@ == k);
                    assert(old_self@[old_self.entries@[i].0@] == json_model(
                        old_self.entries@[i].1,
                    ));
                }
            }
        }
    }
}

/// With distinct keys, the map has as many keys as the list has pairs.
pub proof fn lemma_distinct_pairs_len(s: Seq<(Seq<char>, Json)>)
    requires
        distinct_keys(s),
    ensures
        pairs_map(s).dom().finite(),
        pairs_map(s).dom().len() == s.len(),
    decreases s.len(),
{
    if s.len() > 0 {
        let p = s.drop_last();
        assert(distinct_keys(p)) by {
            assert forall|a: int, b: int| 0 <= a < b < p.len() implies #[trigger] p[a].0
                != #[trigger] p[b].0 by {
                assert(p[a] == s[a] && p[b] == s[b]);
            }
        }
        lemma_distinct_pairs_len(p);
        lemma_pairs_map_dom(p, s.last().0);
        if pairs_map(p).dom().contains(s.last().0) {
            let i = choose|i: int| 0 <= i < p.len() && #[trigger] p[i].0 == s.last().0;
            assert(s[i].0 == s[s.len() - 1].0);
        }
    }
}

/// Post-processing keeps the set of keys: only values change.
pub proof fn law_postprocess_keeps_keys(m: Map<Seq<char>, Json>)
    ensures
        postprocess_map(m).dom() == m.dom(),
{
    assert(postprocess_map(m).dom() =~= m.dom());
}

/// Post-processing changes no value that is not an array looking like
/// devalue output.
pub proof fn law_postprocess_changes_only_devalue_arrays(v: Json)
    ensures
        !(v matches Json::Array(items) && devalue_shaped(items)) ==> postprocess(v) == v,
{
}

} // verus!
