//! Name-keyed tables (one per scope) and the lexicographic order of names.
use vstd::prelude::*;

use crate::mcp_toml::{McpServerConfig, ServerConfigView};
use crate::text::chars_of;

verus! {

// ------------------------------------------------------------------
// Sequences of pairs with distinct keys, seen as maps
// ------------------------------------------------------------------

/// No key occurs twice in `s`.
pub open spec fn distinct_keys<V>(s: Seq<(Seq<char>, V)>) -> bool {
    forall|i: int, j: int| 0 <= i < j < s.len() ==> (#[trigger] s[i]).0 != (#[trigger] s[j]).0
}

/// `k` is the key of some pair of `s`.
pub open spec fn has_key<V>(s: Seq<(Seq<char>, V)>, k: Seq<char>) -> bool {
    exists|i: int| 0 <= i < s.len() && (#[trigger] s[i]).0 == k
}

/// The map that `s` describes: each key to the value of a pair with that key.
pub open spec fn to_map<V>(s: Seq<(Seq<char>, V)>) -> Map<Seq<char>, V> {
    Map::new(
        |k: Seq<char>| has_key(s, k),
        |k: Seq<char>| s[choose|i: int| 0 <= i < s.len() && (#[trigger] s[i]).0 == k].1,
    )
}

pub proof fn lemma_to_map_index<V>(s: Seq<(Seq<char>, V)>, i: int)
    requires
        distinct_keys(s),
        0 <= i < s.len(),
    ensures
        to_map(s).contains_key(s[i].0),
        to_map(s)[s[i].0] == s[i].1,
{
    let k = s[i].0;
    assert(has_key(s, k));
    let j = choose|j: int| 0 <= j < s.len() && (#[trigger] s[j]).0 == k;
    if j != i {
        if j < i {
            assert(s[j].0 != s[i].0);
        } else {
            assert(s[i].0 != s[j].0);
        }
    }
}

pub proof fn lemma_to_map_push<V>(s: Seq<(Seq<char>, V)>, k: Seq<char>, v: V)
    requires
        distinct_keys(s),
        !has_key(s, k),
    ensures
        distinct_keys(s.push((k, v))),
        to_map(s.push((k, v))) == to_map(s).insert(k, v),
{
    let t = s.push((k, v));
    assert forall|i: int, j: int| 0 <= i < j < t.len() implies (#[trigger] t[i]).0 != (#[trigger] t[j]).0 by {
        if j == s.len() {
            assert(s[i].0 != k);
        } else {
            assert(s[i] == t[i] && s[j] == t[j]);
        }
    }
    assert forall|key: Seq<char>| #[trigger] to_map(t).contains_key(key) <==> to_map(s).insert(k, v).contains_key(key) by {
        if has_key(s, key) {
            let i = choose|i: int| 0 <= i < s.len() && (#[trigger] s[i]).0 == key;
            assert(t[i] == s[i]);
        }
        if key == k {
            assert(t[s.len() as int].0 == k);
        }
        if has_key(t, key) && key != k {
            let i = choose|i: int| 0 <= i < t.len() && (#[trigger] t[i]).0 == key;
            assert(s[i] == t[i]);
        }
    }
    assert forall|key: Seq<char>| #[trigger] to_map(t).contains_key(key) implies to_map(t)[key] == to_map(s).insert(k, v)[key] by {
        if key == k {
            lemma_to_map_index(t, s.len() as int);
        } else {
            let i = choose|i: int| 0 <= i < t.len() && (#[trigger] t[i]).0 == key;
            assert(i < s.len());
            assert(s[i] == t[i]);
            lemma_to_map_index(t, i);
            lemma_to_map_index(s, i);
        }
    }
    assert(to_map(t) =~= to_map(s).insert(k, v));
}

pub proof fn lemma_to_map_update<V>(s: Seq<(Seq<char>, V)>, i: int, v: V)
    requires
        distinct_keys(s),
        0 <= i < s.len(),
    ensures
        distinct_keys(s.update(i, (s[i].0, v))),
        to_map(s.update(i, (s[i].0, v))) == to_map(s).insert(s[i].0, v),
{
    let k = s[i].0;
    let t = s.update(i, (k, v));
    assert forall|a: int, b: int| 0 <= a < b < t.len() implies (#[trigger] t[a]).0 != (#[trigger] t[b]).0 by {
        assert(t[a].0 == s[a].0 && t[b].0 == s[b].0);
    }
    assert forall|key: Seq<char>| #[trigger] has_key(t, key) <==> has_key(s, key) by {
        if has_key(s, key) {
            let j = choose|j: int| 0 <= j < s.len() && (#[trigger] s[j]).0 == key;
            assert(t[j].0 == key);
        }
        if has_key(t, key) {
            let j = choose|j: int| 0 <= j < t.len() && (#[trigger] t[j]).0 == key;
            assert(s[j].0 == key);
        }
    }
    assert forall|key: Seq<char>| #[trigger] to_map(t).contains_key(key) implies to_map(t)[key] == to_map(s).insert(k, v)[key] by {
        let j = choose|j: int| 0 <= j < t.len() && (#[trigger] t[j]).0 == key;
        lemma_to_map_index(t, j);
        if j != i {
            assert(s[j] == t[j]);
            lemma_to_map_index(s, j);
        }
    }
    assert(to_map(t) =~= to_map(s).insert(k, v));
}

// ------------------------------------------------------------------
// String comparison
// ------------------------------------------------------------------

/// Equality of two strings (std's `str` equality).
#[verifier::external_body]
pub fn str_eq(a: &str, b: &str) -> (r: bool)
    ensures
        r == (a@ == b@),
{
    a == b
}

/// `a` comes strictly before `b` in lexicographic order of characters (the
/// order of `String`, since UTF-8 preserves the order of code points).
pub open spec fn lex_lt(a: Seq<char>, b: Seq<char>) -> bool
    decreases a.len(),
{
    if b.len() == 0 {
        false
    } else if a.len() == 0 {
        true
    } else if a[0] != b[0] {
        a[0] < b[0]
    } else {
        lex_lt(a.drop_first(), b.drop_first())
    }
}

pub proof fn lemma_lex_irreflexive(a: Seq<char>)
    ensures
        !lex_lt(a, a),
    decreases a.len(),
{
    if a.len() > 0 {
        lemma_lex_irreflexive(a.drop_first());
    }
}

pub proof fn lemma_lex_asymmetric(a: Seq<char>, b: Seq<char>)
    ensures
        !(lex_lt(a, b) && lex_lt(b, a)),
    decreases a.len(),
{
    if a.len() > 0 && b.len() > 0 && a[0] == b[0] {
        lemma_lex_asymmetric(a.drop_first(), b.drop_first());
    }
}

pub proof fn lemma_lex_total(a: Seq<char>, b: Seq<char>)
    ensures
        a == b || lex_lt(a, b) || lex_lt(b, a),
    decreases a.len(),
{
    if a.len() > 0 && b.len() > 0 && a[0] == b[0] {
        lemma_lex_total(a.drop_first(), b.drop_first());
        if a.drop_first() == b.drop_first() {
            assert(a =~= seq![a[0]] + a.drop_first());
            assert(b =~= seq![b[0]] + b.drop_first());
        }
    } else if a.len() == 0 && b.len() == 0 {
        assert(a =~= b);
    }
}

pub proof fn lemma_lex_transitive(a: Seq<char>, b: Seq<char>, c: Seq<char>)
    requires
        lex_lt(a, b),
        lex_lt(b, c),
    ensures
        lex_lt(a, c),
    decreases a.len(),
{
    if a.len() > 0 && a[0] == b[0] && b[0] == c[0] {
        lemma_lex_transitive(a.drop_first(), b.drop_first(), c.drop_first());
    }
}

proof fn lemma_lex_skip(a: Seq<char>, b: Seq<char>, k: int)
    requires
        0 <= k <= a.len(),
        k <= b.len(),
        forall|j: int| 0 <= j < k ==> a[j] == b[j],
    ensures
        lex_lt(a, b) == lex_lt(a.skip(k), b.skip(k)),
    decreases k,
{
    if k > 0 {
        assert forall|j: int| 0 <= j < k - 1 implies a.drop_first()[j] == b.drop_first()[j] by {
            assert(a[j + 1] == b[j + 1]);
        }
        lemma_lex_skip(a.drop_first(), b.drop_first(), k - 1);
        assert(a.drop_first().skip(k - 1) =~= a.skip(k));
        assert(b.drop_first().skip(k - 1) =~= b.skip(k));
    } else {
        assert(a.skip(0) =~= a);
        assert(b.skip(0) =~= b);
    }
}

/// Whether `a` comes strictly before `b`.
pub fn lex_less(a: &str, b: &str) -> (r: bool)
    ensures
        r == lex_lt(a@, b@),
{
    let x = chars_of(a);
    let y = chars_of(b);
    let mut k: usize = 0;
    while k < x.len() && k < y.len() && x[k] == y[k]
        invariant
            k <= x@.len(),
            k <= y@.len(),
            x@ == a@,
            y@ == b@,
            forall|j: int| 0 <= j < k ==> x@[j] == y@[j],
        decreases x.len() - k,
    {
        k = k + 1;
    }
    proof {
        lemma_lex_skip(x@, y@, k as int);
    }
    if k == y.len() {
        false
    } else if k == x.len() {
        true
    } else {
        x[k] < y[k]
    }
}

/// Every name of `s` comes strictly before every later one.
pub open spec fn strictly_sorted(s: Seq<Seq<char>>) -> bool {
    forall|i: int, j: int| 0 <= i < j < s.len() ==> lex_lt(#[trigger] s[i], #[trigger] s[j])
}

/// Inserts `x` into the sorted list `v`, unless it is already there.
pub fn insert_sorted(v: &mut Vec<String>, x: String)
    requires
        strictly_sorted(old(v).deep_view()),
    ensures
        strictly_sorted(final(v).deep_view()),
        final(v).deep_view().to_set() == old(v).deep_view().to_set().insert(x@),
{
    let ghost old_v = v.deep_view();
    let mut p: usize = 0;
    while p < v.len() && lex_less(v[p].as_str(), x.as_str())
        invariant
            p <= v@.len(),
            v.deep_view() == old_v,
            forall|j: int| 0 <= j < p ==> lex_lt(#[trigger] old_v[j], x@),
        decreases v.len() - p,
    {
        p = p + 1;
    }
    if p < v.len() && str_eq(v[p].as_str(), x.as_str()) {
        assert(old_v.to_set().insert(x@) =~= old_v.to_set()) by {
            assert(old_v[p as int] == x@);
        }
        return;
    }
    proof {
        if p < old_v.len() {
            lemma_lex_total(old_v[p as int], x@);
            assert(lex_lt(x@, old_v[p as int]));
            assert forall|j: int| p < j < old_v.len() implies lex_lt(x@, #[trigger] old_v[j]) by {
                lemma_lex_transitive(x@, old_v[p as int], old_v[j]);
            }
        }
    }
    v.insert(p, x);
    proof {
        let nv = v.deep_view();
        assert(nv =~= old_v.insert(p as int, x@));
        assert forall|i: int, j: int| 0 <= i < j < nv.len() implies lex_lt(#[trigger] nv[i], #[trigger] nv[j]) by {
            if j < p {
            } else if j == p {
            } else if i < p {
                assert(nv[j] == old_v[j - 1]);
                if j - 1 == p {
                    lemma_lex_transitive(nv[i], x@, nv[j]);
                } else {
                    lemma_lex_transitive(nv[i], x@, nv[j]);
                }
            } else if i == p {
                assert(nv[j] == old_v[j - 1]);
            } else {
                assert(nv[i] == old_v[i - 1] && nv[j] == old_v[j - 1]);
            }
        }
        assert forall|e: Seq<char>| #[trigger] nv.to_set().contains(e) <==> old_v.to_set().insert(x@).contains(e) by {
            if nv.contains(e) {
                let i = choose|i: int| 0 <= i < nv.len() && nv[i] == e;
                if i < p {
                    assert(old_v[i] == e);
                } else if i > p {
                    assert(old_v[i - 1] == e);
                }
            }
            if old_v.contains(e) {
                let i = choose|i: int| 0 <= i < old_v.len() && old_v[i] == e;
                if i < p {
                    assert(nv[i] == e);
                } else {
                    assert(nv[i + 1] == e);
                }
            }
            if e == x@ {
                assert(nv[p as int] == e);
            }
        }
        assert(nv.to_set() =~= old_v.to_set().insert(x@));
    }
}

/// `c` is the configuration of some server of `m`.
pub open spec fn is_value_of(m: Map<Seq<char>, ServerConfigView>, c: ServerConfigView) -> bool {
    exists|k: Seq<char>| #[trigger] m.contains_key(k) && m[k] == c
}

// ------------------------------------------------------------------
// One table of servers
// ------------------------------------------------------------------

/// The servers of one scope, keyed by name.
#[derive(Debug)]
pub struct ServerMap {
    entries: Vec<(String, McpServerConfig)>,
}

impl ServerMap {
    /// The entries as pairs of name and configuration content.
    pub closed spec fn entries_view(&self) -> Seq<(Seq<char>, ServerConfigView)> {
        self.entries@.map_values(|p: (String, McpServerConfig)| (p.0@, p.1@))
    }

    /// No name occurs twice.
    pub closed spec fn wf(&self) -> bool {
        distinct_keys(self.entries_view())
    }

    /// The table as a map from name to configuration.
    pub closed spec fn view(&self) -> Map<Seq<char>, ServerConfigView> {
        to_map(self.entries_view())
    }

    proof fn lemma_finite(&self)
        requires
            self.wf(),
        ensures
            self.view().dom().finite(),
            self.view().dom().len() <= self.entries@.len(),
    {
        let ev = self.entries_view();
        let keys = ev.map_values(|p: (Seq<char>, ServerConfigView)| p.0);
        assert(self.view().dom() =~= keys.to_set()) by {
            assert forall|k: Seq<char>| #[trigger] self.view().dom().contains(k) <==> keys.to_set().contains(k) by {
                if has_key(ev, k) {
                    let i = choose|i: int| 0 <= i < ev.len() && (#[trigger] ev[i]).0 == k;
                    assert(keys[i] == k);
                }
                if keys.contains(k) {
                    let i = choose|i: int| 0 <= i < keys.len() && keys[i] == k;
                    assert(ev[i].0 == k);
                }
            }
        }
        keys.unique_seq_to_set();
        assert forall|i: int, j: int| 0 <= i < j < keys.len() implies keys[i] != keys[j] by {
            assert(ev[i].0 != ev[j].0);
        }
        assert(keys.no_duplicates());
    }

    /// An empty table.
    pub fn new() -> (r: Self)
        ensures
            r.wf(),
            r.view() == Map::<Seq<char>, ServerConfigView>::empty(),
    {
        let r = ServerMap { entries: Vec::new() };
        assert(r.view() =~= Map::<Seq<char>, ServerConfigView>::empty());
        r
    }

    /// The number of servers.
    pub fn len(&self) -> (r: usize)
        requires
            self.wf(),
        ensures
            r == self.view().dom().len(),
    {
        proof {
            let ev = self.entries_view();
            let keys = ev.map_values(|p: (Seq<char>, ServerConfigView)| p.0);
            self.lemma_finite();
            assert(self.view().dom() =~= keys.to_set()) by {
                assert forall|k: Seq<char>| #[trigger] self.view().dom().contains(k) <==> keys.to_set().contains(k) by {
                    if has_key(ev, k) {
                        let i = choose|i: int| 0 <= i < ev.len() && (#[trigger] ev[i]).0 == k;
                        assert(keys[i] == k);
                    }
                    if keys.contains(k) {
                        let i = choose|i: int| 0 <= i < keys.len() && keys[i] == k;
                        assert(ev[i].0 == k);
                    }
                }
            }
            assert forall|i: int, j: int| 0 <= i < j < keys.len() implies keys[i] != keys[j] by {
                assert(ev[i].0 != ev[j].0);
            }
            keys.unique_seq_to_set();
        }
        self.entries.len()
    }

    /// The position of `name` among the entries, if present.
    fn find(&self, name: &str) -> (r: Option<usize>)
        requires
            self.wf(),
        ensures
            match r {
                Some(i) => i < self.entries@.len() && self.entries@[i as int].0@ == name@,
                None => !has_key(self.entries_view(), name@),
            },
    {
        let mut i: usize = 0;
        while i < self.entries.len()
            invariant
                i <= self.entries@.len(),
                forall|j: int| 0 <= j < i ==> self.entries@[j].0@ != name@,
            decreases self.entries.len() - i,
        {
            if str_eq(self.entries[i].0.as_str(), name) {
                return Some(i);
            }
            i = i + 1;
        }
        proof {
            if has_key(self.entries_view(), name@) {
                let j = choose|j: int| 0 <= j < self.entries_view().len() && (#[trigger] self.entries_view()[j]).0 == name@;
                assert(self.entries@[j].0@ == name@);
            }
        }
        None
    }

    /// Whether `name` has an entry.
    pub fn contains_key(&self, name: &str) -> (r: bool)
        requires
            self.wf(),
        ensures
            r == self.view().contains_key(name@),
    {
        match self.find(name) {
            Some(i) => {
                proof {
                    lemma_to_map_index(self.entries_view(), i as int);
                }
                true
            },
            None => false,
        }
    }

    /// The configuration of `name`, if it has one.
    pub fn get(&self, name: &str) -> (r: Option<&McpServerConfig>)
        requires
            self.wf(),
        ensures
            match r {
                Some(c) => self.view().contains_key(name@) && self.view()[name@] == c@,
                None => !self.view().contains_key(name@),
            },
    {
        match self.find(name) {
            Some(i) => {
                proof {
                    lemma_to_map_index(self.entries_view(), i as int);
                }
                Some(&self.entries[i].1)
            },
            None => None,
        }
    }

    /// Sets the configuration of `name` (replacing any earlier one).
    pub fn insert(&mut self, name: String, cfg: McpServerConfig)
        requires
            old(self).wf(),
        ensures
            final(self).wf(),
            final(self).view() == old(self).view().insert(name@, cfg@),
    {
        let ghost old_ev = self.entries_view();
        match self.find(name.as_str()) {
            Some(i) => {
                let ghost v = cfg@;
                self.entries.set(i, (name, cfg));
                proof {
                    assert(self.entries_view() =~= old_ev.update(i as int, (old_ev[i as int].0, v)));
                    lemma_to_map_update(old_ev, i as int, v);
                }
            },
            None => {
                let ghost k = name@;
                let ghost v = cfg@;
                self.entries.push((name, cfg));
                proof {
                    assert(self.entries_view() =~= old_ev.push((k, v)));
                    lemma_to_map_push(old_ev, k, v);
                }
            },
        }
    }

    /// The first entry, if any.
    pub fn first(&self) -> (r: Option<&McpServerConfig>)
        requires
            self.wf(),
        ensures
            match r {
                Some(c) => is_value_of(self.view(), c@),
                None => self.view().dom() == Set::<Seq<char>>::empty(),
            },
    {
        if self.entries.len() == 0 {
            assert(self.view().dom() =~= Set::<Seq<char>>::empty());
            None
        } else {
            proof {
                lemma_to_map_index(self.entries_view(), 0);
                let k = self.entries_view()[0].0;
                assert(self.entries_view()[0].1 == self.entries@[0].1@);
                assert(self.view().contains_key(k) && self.view()[k] == self.entries@[0].1@);
            }
            Some(&self.entries[0].1)
        }
    }

    /// Appends the names of all entries to `names`, keeping it sorted and free
    /// of repetitions.
    pub fn add_names_sorted(&self, names: &mut Vec<String>)
        requires
            self.wf(),
            strictly_sorted(old(names).deep_view()),
        ensures
            strictly_sorted(final(names).deep_view()),
            final(names).deep_view().to_set() == old(names).deep_view().to_set().union(self.view().dom()),
    {
        let ghost start = names.deep_view().to_set();
        let ghost ev = self.entries_view();
        let mut i: usize = 0;
        while i < self.entries.len()
            invariant
                i <= self.entries@.len(),
                ev == self.entries_view(),
                strictly_sorted(names.deep_view()),
                names.deep_view().to_set() == start.union(
                    Set::new(|k: Seq<char>| exists|j: int| 0 <= j < i && (#[trigger] ev[j]).0 == k),
                ),
            decreases self.entries.len() - i,
        {
            let ghost before = names.deep_view().to_set();
            insert_sorted(names, self.entries[i].0.clone());
            i = i + 1;
            proof {
                assert(names.deep_view().to_set() =~= start.union(
                    Set::new(|k: Seq<char>| exists|j: int| 0 <= j < i && (#[trigger] ev[j]).0 == k),
                )) by {
                    assert(ev[i - 1].0 == self.entries@[i - 1].0@);
                    assert forall|k: Seq<char>| #[trigger] names.deep_view().to_set().contains(k) ==
                        start.union(Set::new(|k: Seq<char>| exists|j: int| 0 <= j < i && (#[trigger] ev[j]).0 == k)).contains(k) by {
                        if exists|j: int| 0 <= j < i && (#[trigger] ev[j]).0 == k {
                            let j = choose|j: int| 0 <= j < i && (#[trigger] ev[j]).0 == k;
                            if j < i - 1 {
                                assert(exists|j2: int| 0 <= j2 < i - 1 && (#[trigger] ev[j2]).0 == k);
                            }
                        }
                    }
                }
            }
        }
        proof {
            assert(Set::new(|k: Seq<char>| exists|j: int| 0 <= j < i && (#[trigger] ev[j]).0 == k) =~= self.view().dom()) by {
                assert forall|k: Seq<char>| #[trigger] self.view().dom().contains(k) implies
                    exists|j: int| 0 <= j < i && (#[trigger] ev[j]).0 == k by {
                    assert(has_key(ev, k));
                }
            }
        }
    }
}

} // verus!
