//! Route parameters: a map from parameter name to the captured value.
use vstd::prelude::*;
use crate::pattern::views;

verus! {

/// The names of a list of entries.
pub open spec fn entry_keys(e: Seq<(String, String)>) -> Seq<Seq<char>> {
    e.map_values(|p: (String, String)| p.0@)
}

/// The map that a list of entries with distinct names stands for.
pub open spec fn entries_map(e: Seq<(String, String)>) -> Map<Seq<char>, Seq<char>> {
    Map::new(
        |k: Seq<char>| entry_keys(e).contains(k),
        |k: Seq<char>| e[choose|i: int| 0 <= i < e.len() && #[trigger] e[i].0@ == k].1@,
    )
}

proof fn lemma_entry_value(e: Seq<(String, String)>, i: int)
    requires
        entry_keys(e).no_duplicates(),
        0 <= i < e.len(),
    ensures
        entries_map(e).contains_key(e[i].0@),
        entries_map(e)[e[i].0@] == e[i].1@,
{
    assert(entry_keys(e)[i] == e[i].0@);
    let j = choose|j: int| 0 <= j < e.len() && #[trigger] e[j].0@ == e[i].0@;
    assert(entry_keys(e)[j] == e[j].0@);
}

proof fn lemma_entries_finite(e: Seq<(String, String)>)
    ensures
        entries_map(e).dom() =~= entry_keys(e).to_set(),
        entries_map(e).dom().finite(),
{
    vstd::seq_lib::seq_to_set_is_finite(entry_keys(e));
}

proof fn lemma_entries_len(e: Seq<(String, String)>)
    requires
        entry_keys(e).no_duplicates(),
    ensures
        entries_map(e).dom() =~= entry_keys(e).to_set(),
        entries_map(e).len() == e.len(),
{
    entry_keys(e).unique_seq_to_set();
    assert(entries_map(e).dom() =~= entry_keys(e).to_set());
}

/// A map from route parameter names to their values.
#[derive(Debug)]
pub struct RouteParams {
    entries: Vec<(String, String)>,
}

impl View for RouteParams {
    type V = Map<Seq<char>, Seq<char>>;

    closed spec fn view(&self) -> Map<Seq<char>, Seq<char>> {
        entries_map(self.entries@)
    }
}

impl RouteParams {
    /// The map holds finitely many parameters.
    pub proof fn lemma_view_finite(&self)
        ensures
            self@.dom().finite(),
    {
        lemma_entries_finite(self.entries@);
    }

    #[verifier::type_invariant]
    spec fn keys_distinct(&self) -> bool {
        entry_keys(self.entries@).no_duplicates()
    }

    /// A copy of the map.
    pub fn duplicate(&self) -> (r: RouteParams)
        ensures
            r@ == self@,
    {
        proof {
            use_type_invariant(self);
        }
        let mut out: Vec<(String, String)> = Vec::new();
        let mut i: usize = 0;
        while i < self.entries.len()
            invariant
                i <= self.entries@.len(),
                out@.len() == i,
                forall|j: int| 0 <= j < i ==> out@[j].0@ == self.entries@[j].0@ && out@[j].1@
                    == self.entries@[j].1@,
            decreases self.entries@.len() - i,
        {
            out.push((self.entries[i].0.clone(), self.entries[i].1.clone()));
            i = i + 1;
        }
        proof {
            assert(entry_keys(out@) =~= entry_keys(self.entries@));
            assert forall|k: Seq<char>| #[trigger] entries_map(out@).contains_key(k) implies
                entries_map(out@)[k] == entries_map(self.entries@)[k] by {
                let j = choose|j: int| 0 <= j < out@.len() && #[trigger] entry_keys(out@)[j] == k;
                assert(out@[j].0@ == k);
                lemma_entry_value(out@, j);
                lemma_entry_value(self.entries@, j);
            }
            assert(entries_map(out@) =~= entries_map(self.entries@));
        }
        RouteParams { entries: out }
    }

    /// Creates an empty map.
    pub fn new() -> (r: RouteParams)
        ensures
            r@ == Map::<Seq<char>, Seq<char>>::empty(),
    {
        let r = RouteParams { entries: Vec::new() };
        assert(r@ =~= Map::<Seq<char>, Seq<char>>::empty());
        r
    }

    /// Creates an empty map with room for `capacity` entries.
    pub fn with_capacity(capacity: usize) -> (r: RouteParams)
        ensures
            r@ == Map::<Seq<char>, Seq<char>>::empty(),
    {
        let r = RouteParams { entries: Vec::with_capacity(capacity) };
        assert(r@ =~= Map::<Seq<char>, Seq<char>>::empty());
        r
    }

    fn position(&self, param_name: &str) -> (r: Option<usize>)
        ensures
            r is None <==> !self@.contains_key(param_name@),
            r matches Some(i) ==> i < self.entries@.len() && self.entries@[i as int].0@
                == param_name@,
    {
        proof {
            use_type_invariant(self);
        }
        let name = String::from_str(param_name);
        let mut i: usize = 0;
        while i < self.entries.len()
            invariant
                i <= self.entries@.len(),
                name@ == param_name@,
                forall|j: int| 0 <= j < i ==> self.entries@[j].0@ != param_name@,
            decreases self.entries@.len() - i,
        {
            if self.entries[i].0 == name {
                proof {
                    assert(entry_keys(self.entries@)[i as int] == param_name@);
                }
                return Some(i);
            }
            i = i + 1;
        }
        proof {
            if self@.contains_key(param_name@) {
                let k = choose|k: int|
                    0 <= k < entry_keys(self.entries@).len() && entry_keys(self.entries@)[k]
                        == param_name@;
                assert(self.entries@[k].0@ == param_name@);
            }
        }
        None
    }

    /// Sets the value of a parameter, replacing any earlier value of that name.
    pub fn set(&mut self, param_name: &str, param_val: &str)
        ensures
            final(self)@ == old(self)@.insert(param_name@, param_val@),
            final(self)@.dom().finite(),
            final(self)@.len() == old(self)@.len() + if old(self)@.contains_key(param_name@) {
                0nat
            } else {
                1nat
            },
    {
        proof {
            use_type_invariant(&*self);
            lemma_entries_finite(self.entries@);
        }
        let ghost e0 = self.entries@;
        let entry = (String::from_str(param_name), String::from_str(param_val));
        match self.position(param_name) {
            Some(i) => {
                let mut entries: Vec<(String, String)> = Vec::new();
                std::mem::swap(&mut self.entries, &mut entries);
                entries.set(i, entry);
                proof {
                    let e1 = entries@;
                    assert(entry_keys(e1) =~= entry_keys(e0));
                    assert forall|k: Seq<char>| #[trigger]
                        entries_map(e1).contains_key(k) implies entries_map(e1)[k]
                        == entries_map(e0).insert(param_name@, param_val@)[k] by {
                        let j = choose|j: int| 0 <= j < e1.len() && #[trigger] entry_keys(e1)[j] == k;
                        assert(e1[j].0@ == k);
                        lemma_entry_value(e1, j);
                        if j != i {
                            assert(e0[j] == e1[j]);
                            assert(entry_keys(e0)[j] != entry_keys(e0)[i as int]);
                            lemma_entry_value(e0, j);
                        }
                    }
                    assert(entries_map(e1).dom() =~= entries_map(e0).insert(param_name@, param_val@).dom()) by {
                        assert(e0[i as int].0@ == param_name@);
                        assert(entry_keys(e0)[i as int] == param_name@);
                    }
                    assert(entries_map(e1) =~= entries_map(e0).insert(param_name@, param_val@));
                }
                self.entries = entries;
            },
            None => {
                let mut entries: Vec<(String, String)> = Vec::new();
                std::mem::swap(&mut self.entries, &mut entries);
                entries.push(entry);
                proof {
                    let e1 = entries@;
                    assert(entry_keys(e1) =~= entry_keys(e0).push(param_name@));
                    assert(!entry_keys(e0).contains(param_name@));
                    assert(entry_keys(e1).no_duplicates()) by {
                        assert forall|a: int, b: int|
                            0 <= a < entry_keys(e1).len() && 0 <= b < entry_keys(e1).len() && a != b
                            implies entry_keys(e1)[a] != entry_keys(e1)[b] by {
                            if a == e0.len() as int {
                                assert(entry_keys(e0)[b] == entry_keys(e1)[b]);
                            } else if b == e0.len() as int {
                                assert(entry_keys(e0)[a] == entry_keys(e1)[a]);
                            }
                        }
                    }
                    assert forall|k: Seq<char>| #[trigger]
                        entries_map(e1).contains_key(k) implies entries_map(e1)[k]
                        == entries_map(e0).insert(param_name@, param_val@)[k] by {
                        let j = choose|j: int| 0 <= j < e1.len() && #[trigger] entry_keys(e1)[j] == k;
                        assert(e1[j].0@ == k);
                        lemma_entry_value(e1, j);
                        if j != e0.len() as int {
                            assert(e0[j] == e1[j]);
                            assert(entry_keys(e0)[j] == k);
                            lemma_entry_value(e0, j);
                        }
                    }
                    assert(entries_map(e1).dom() =~= entries_map(e0).insert(param_name@, param_val@).dom()) by {
                        assert(entry_keys(e1)[e0.len() as int] == param_name@);
                        assert forall|k: Seq<char>| entry_keys(e0).contains(k) implies entry_keys(e1).contains(k) by {
                            let j = choose|j: int| 0 <= j < e0.len() && entry_keys(e0)[j] == k;
                            assert(entry_keys(e1)[j] == k);
                        }
                    }
                    assert(entries_map(e1) =~= entries_map(e0).insert(param_name@, param_val@));
                }
                self.entries = entries;
            },
        }
    }

    /// The value of a parameter, if it is set.
    pub fn get(&self, param_name: &str) -> (r: Option<&String>)
        ensures
            r is Some <==> self@.contains_key(param_name@),
            r matches Some(v) ==> v@ == self@[param_name@],
    {
        proof {
            use_type_invariant(self);
        }
        match self.position(param_name) {
            Some(i) => {
                proof {
                    lemma_entry_value(self.entries@, i as int);
                }
                Some(&self.entries[i].1)
            },
            None => None,
        }
    }

    /// Whether a parameter is set.
    pub fn has(&self, param_name: &str) -> (r: bool)
        ensures
            r == self@.contains_key(param_name@),
    {
        self.position(param_name).is_some()
    }

    /// The number of parameters.
    pub fn len(&self) -> (r: usize)
        ensures
            r == self@.len(),
    {
        proof {
            use_type_invariant(self);
            lemma_entries_len(self.entries@);
        }
        self.entries.len()
    }

    /// The parameter names, each once.
    pub fn params_names(&self) -> (r: Vec<String>)
        ensures
            r@.len() == self@.len(),
            views(r@).no_duplicates(),
            views(r@).to_set() == self@.dom(),
    {
        proof {
            use_type_invariant(self);
            lemma_entries_len(self.entries@);
        }
        let mut names: Vec<String> = Vec::new();
        let mut i: usize = 0;
        while i < self.entries.len()
            invariant
                i <= self.entries@.len(),
                names@.len() == i,
                forall|j: int| 0 <= j < i ==> names@[j]@ == self.entries@[j].0@,
            decreases self.entries@.len() - i,
        {
            names.push(self.entries[i].0.clone());
            i = i + 1;
        }
        proof {
            assert(views(names@) =~= entry_keys(self.entries@));
        }
        names
    }

    /// The entries as `(name, value)` pairs, each name once.
    pub fn iter(&self) -> (r: Vec<(String, String)>)
        ensures
            r@.len() == self@.len(),
            entry_keys(r@).no_duplicates(),
            forall|i: int| 0 <= i < r@.len() ==> self@.contains_key(#[trigger] r@[i].0@)
                && self@[r@[i].0@] == r@[i].1@,
            forall|k: Seq<char>| self@.contains_key(k) ==> entry_keys(r@).contains(k),
    {
        proof {
            use_type_invariant(self);
            lemma_entries_len(self.entries@);
        }
        let mut out: Vec<(String, String)> = Vec::new();
        let mut i: usize = 0;
        while i < self.entries.len()
            invariant
                i <= self.entries@.len(),
                out@.len() == i,
                forall|j: int| 0 <= j < i ==> out@[j].0@ == self.entries@[j].0@ && out@[j].1@
                    == self.entries@[j].1@,
            decreases self.entries@.len() - i,
        {
            out.push((self.entries[i].0.clone(), self.entries[i].1.clone()));
            i = i + 1;
        }
        proof {
            assert(entry_keys(out@) =~= entry_keys(self.entries@));
            assert forall|j: int| 0 <= j < out@.len() implies self@.contains_key(
                #[trigger] out@[j].0@,
            ) && self@[out@[j].0@] == out@[j].1@ by {
                lemma_entry_value(self.entries@, j);
            }
        }
        out
    }

    /// Adds every entry of `other`, whose values win over those already set.
    pub fn extend(&mut self, other_route_params: RouteParams)
        ensures
            final(self)@ == old(self)@.union_prefer_right(other_route_params@),
            final(self)@.dom().finite(),
            final(self)@.len() == old(self)@.dom().union(other_route_params@.dom()).len(),
    {
        proof {
            use_type_invariant(&other_route_params);
        }
        let ghost start = self@;
        let mut i: usize = 0;
        while i < other_route_params.entries.len()
            invariant
                i <= other_route_params.entries@.len(),
                entry_keys(other_route_params.entries@).no_duplicates(),
                self@ == start.union_prefer_right(
                    entries_map(other_route_params.entries@.subrange(0, i as int)),
                ),
            decreases other_route_params.entries@.len() - i,
        {
            let ghost before = self@;
            let ghost e = other_route_params.entries@;
            self.set(
                other_route_params.entries[i].0.as_str(),
                other_route_params.entries[i].1.as_str(),
            );
            proof {
                let p = e.subrange(0, i as int);
                let q = e.subrange(0, i + 1);
                assert(entry_keys(q) =~= entry_keys(e).subrange(0, i + 1));
                assert(entry_keys(p) =~= entry_keys(e).subrange(0, i as int));
                assert(entries_map(q) =~= entries_map(p).insert(e[i as int].0@, e[i as int].1@)) by {
                    assert(entry_keys(q) =~= entry_keys(p).push(e[i as int].0@));
                    assert forall|k: Seq<char>| #[trigger] entries_map(q).contains_key(k)
                        implies entries_map(q)[k] == entries_map(p).insert(e[i as int].0@, e[i as int].1@)[k] by {
                        let j = choose|j: int| 0 <= j < q.len() && #[trigger] entry_keys(q)[j] == k;
                        assert(q[j].0@ == k);
                        lemma_entry_value(q, j);
                        if j < i {
                            assert(p[j] == q[j]);
                            assert(entry_keys(q)[j] != entry_keys(q)[i as int]);
                            lemma_entry_value(p, j);
                        }
                    }
                    assert forall|k: Seq<char>| entry_keys(p).contains(k) implies entry_keys(q).contains(k) by {
                        let j = choose|j: int| 0 <= j < p.len() && entry_keys(p)[j] == k;
                        assert(entry_keys(q)[j] == k);
                    }
                    assert(entry_keys(q)[i as int] == e[i as int].0@);
                }
                assert(self@ =~= start.union_prefer_right(entries_map(q)));
            }
            i = i + 1;
        }
        proof {
            assert(other_route_params.entries@.subrange(0, i as int) =~= other_route_params.entries@);
            use_type_invariant(&*self);
            lemma_entries_finite(self.entries@);
            assert(self@.dom() =~= start.dom().union(other_route_params@.dom()));
        }
    }
}

impl Clone for RouteParams {
    fn clone(&self) -> (r: RouteParams)
        ensures
            r@ == self@,
    {
        self.duplicate()
    }
}

} // verus!

verus! {

/// Path parameters, by name: the same map under the name that handlers of
/// request data use.
#[derive(Debug)]
pub struct PathParams {
    inner: RouteParams,
}

impl View for PathParams {
    type V = Map<Seq<char>, Seq<char>>;

    closed spec fn view(&self) -> Map<Seq<char>, Seq<char>> {
        self.inner@
    }
}

impl PathParams {
    /// The map holds finitely many parameters.
    pub proof fn lemma_view_finite(&self)
        ensures
            self@.dom().finite(),
    {
        self.inner.lemma_view_finite();
    }

    /// Creates an empty map.
    pub fn new() -> (r: PathParams)
        ensures
            r@ == Map::<Seq<char>, Seq<char>>::empty(),
    {
        PathParams { inner: RouteParams::new() }
    }

    /// Creates an empty map with room for `capacity` entries.
    pub fn with_capacity(capacity: usize) -> (r: PathParams)
        ensures
            r@ == Map::<Seq<char>, Seq<char>>::empty(),
    {
        PathParams { inner: RouteParams::with_capacity(capacity) }
    }

    /// Sets the value of a parameter, replacing any earlier value of that name.
    pub fn set(&mut self, param_name: &str, param_val: &str)
        ensures
            final(self)@ == old(self)@.insert(param_name@, param_val@),
            final(self)@.dom().finite(),
            final(self)@.len() == old(self)@.len() + if old(self)@.contains_key(param_name@) {
                0nat
            } else {
                1nat
            },
    {
        self.inner.set(param_name, param_val);
    }

    /// The value of a parameter, if it is set.
    pub fn get(&self, param_name: &String) -> (r: Option<&String>)
        ensures
            r is Some <==> self@.contains_key(param_name@),
            r matches Some(v) ==> v@ == self@[param_name@],
    {
        self.inner.get(param_name.as_str())
    }

    /// Whether a parameter is set.
    pub fn has(&self, param_name: &String) -> (r: bool)
        ensures
            r == self@.contains_key(param_name@),
    {
        self.inner.has(param_name.as_str())
    }

    /// The number of parameters.
    pub fn len(&self) -> (r: usize)
        ensures
            r == self@.len(),
    {
        self.inner.len()
    }

    /// The parameter names, each once.
    pub fn params_names(&self) -> (r: Vec<String>)
        ensures
            r@.len() == self@.len(),
            views(r@).no_duplicates(),
            views(r@).to_set() == self@.dom(),
    {
        self.inner.params_names()
    }

    /// The entries as `(name, value)` pairs, each name once.
    pub fn iter(&self) -> (r: Vec<(String, String)>)
        ensures
            r@.len() == self@.len(),
            entry_keys(r@).no_duplicates(),
            forall|i: int| 0 <= i < r@.len() ==> self@.contains_key(#[trigger] r@[i].0@)
                && self@[r@[i].0@] == r@[i].1@,
            forall|k: Seq<char>| self@.contains_key(k) ==> entry_keys(r@).contains(k),
    {
        self.inner.iter()
    }

    /// Adds every entry of `other`, whose values win over those already set.
    pub fn extend(&mut self, other_path_params: PathParams)
        ensures
            final(self)@ == old(self)@.union_prefer_right(other_path_params@),
            final(self)@.dom().finite(),
            final(self)@.len() == old(self)@.dom().union(other_path_params@.dom()).len(),
    {
        self.inner.extend(other_path_params.inner);
    }
}

impl Clone for PathParams {
    fn clone(&self) -> (r: PathParams)
        ensures
            r@ == self@,
    {
        PathParams { inner: self.inner.duplicate() }
    }
}

} // verus!
