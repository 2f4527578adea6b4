//! Domain model: aliases, groups, and the order-preserving maps that hold them.

use vstd::prelude::*;

verus! {

/// Mathematical value of an [`Alias`]: every text field abstracted to its
/// character sequence.
pub ghost struct AliasV {
    pub command: Seq<char>,
    pub group: Option<Seq<char>>,
    pub enabled: bool,
    pub detailed: bool,
    pub global: bool,
}

/// The character-sequence view of each string in a sequence.
pub open spec fn strs_view(s: Seq<String>) -> Seq<Seq<char>> {
    s.map_values(|x: String| x@)
}

/// The character-sequence view of an optional name.
pub open spec fn opt_view(o: Option<String>) -> Option<Seq<char>> {
    match o {
        Some(s) => Some(s@),
        None => None,
    }
}

/// A named substitution for a shell command.
///
/// `detailed` records whether the alias needs the explicit on-disk form; it is
/// derived from `enabled` and `global` at construction and must be kept in
/// step with them by every mutation.
#[derive(Debug, PartialEq, Eq)]
pub struct Alias {
    pub command: String,
    pub group: Option<String>,
    pub enabled: bool,
    pub detailed: bool,
    pub global: bool,
}

impl View for Alias {
    type V = AliasV;

    open spec fn view(&self) -> AliasV {
        AliasV {
            command: self.command@,
            group: opt_view(self.group),
            enabled: self.enabled,
            detailed: self.detailed,
            global: self.global,
        }
    }
}

impl AliasV {
    /// An alias value may claim the bare on-disk shorthand only when it is
    /// enabled and not global; a disabled or global alias must be detailed.
    pub open spec fn wf(self) -> bool {
        (!self.enabled || self.global) ==> self.detailed
    }
}

impl Alias {
    /// Builds an alias, deriving `detailed` from `enabled` and `global`.
    pub fn new(command: String, group: Option<String>, enabled: bool, global: bool) -> (r: Alias)
        ensures
            r@.command == command@,
            r@.group == opt_view(group),
            r@.enabled == enabled,
            r@.global == global,
            r@.detailed == (!enabled || global),
            r@.wf(),
    {
        Alias { command, enabled, group, detailed: !enabled || global, global }
    }
}

impl Clone for Alias {
    fn clone(&self) -> (r: Self)
        ensures
            r == *self,
    {
        Alias {
            command: self.command.clone(),
            group: match &self.group {
                Some(g) => Some(g.clone()),
                None => None,
            },
            enabled: self.enabled,
            detailed: self.detailed,
            global: self.global,
        }
    }
}

/// True when the keys of an association sequence are pairwise distinct.
pub open spec fn distinct_keys<V>(s: Seq<(Seq<char>, V)>) -> bool {
    forall|i: int, j: int|
        0 <= i < j < s.len() ==> (#[trigger] s[i]).0 != (#[trigger] s[j]).0
}

/// True when `k` is a key of the association sequence.
pub open spec fn has_key<V>(s: Seq<(Seq<char>, V)>, k: Seq<char>) -> bool {
    exists|i: int| 0 <= i < s.len() && (#[trigger] s[i]).0 == k
}

/// The index at which `k` occurs; meaningful only when `has_key(s, k)`.
pub open spec fn key_index<V>(s: Seq<(Seq<char>, V)>, k: Seq<char>) -> int {
    choose|i: int| 0 <= i < s.len() && (#[trigger] s[i]).0 == k
}

/// The value stored under `k`; meaningful only when `has_key(s, k)`.
pub open spec fn value_of<V>(s: Seq<(Seq<char>, V)>, k: Seq<char>) -> V {
    s[key_index(s, k)].1
}

/// With distinct keys, any index holding `k` is the key's index.
pub proof fn lemma_key_index<V>(s: Seq<(Seq<char>, V)>, k: Seq<char>, i: int)
    requires
        distinct_keys(s),
        0 <= i < s.len(),
        s[i].0 == k,
    ensures
        has_key(s, k),
        key_index(s, k) == i,
        value_of(s, k) == s[i].1,
{
    assert(has_key(s, k));
    let j = key_index(s, k);
    if i < j {
        assert(s[i].0 != s[j].0);
    } else if j < i {
        assert(s[j].0 != s[i].0);
    }
}

/// Removing an entry keeps the remaining keys distinct.
pub proof fn lemma_distinct_remove<V>(s: Seq<(Seq<char>, V)>, i: int)
    requires
        distinct_keys(s),
        0 <= i < s.len(),
    ensures
        distinct_keys(s.remove(i)),
{
    let t = s.remove(i);
    assert forall|p: int, q: int| 0 <= p < q < t.len() implies (#[trigger] t[p]).0 != (
    #[trigger] t[q]).0 by {
        let p0: int = if p < i { p } else { p + 1 };
        let q0: int = if q < i { q } else { q + 1 };
        assert(t[p] == s[p0]);
        assert(t[q] == s[q0]);
        assert(s[p0].0 != s[q0].0);
    }
}

/// What inserting `v` under `k` leaves: an existing key keeps its position,
/// a new key is appended. This is exactly what the maps' `insert` does.
pub open spec fn upsert<V>(s: Seq<(Seq<char>, V)>, k: Seq<char>, v: V) -> Seq<(Seq<char>, V)> {
    if has_key(s, k) {
        s.update(key_index(s, k), (k, v))
    } else {
        s.push((k, v))
    }
}

/// Inserting keeps every present key and adds the new one.
pub proof fn lemma_upsert_has_key<V>(s: Seq<(Seq<char>, V)>, k: Seq<char>, k2: Seq<char>, v: V)
    requires
        distinct_keys(s),
    ensures
        has_key(upsert(s, k, v), k2) == (has_key(s, k2) || k2 == k),
{
    let t = upsert(s, k, v);
    if has_key(s, k) {
        let i = key_index(s, k);
        assert(0 <= i < s.len() && s[i].0 == k);
        assert forall|j: int| 0 <= j < s.len() && (#[trigger] s[j]).0 == k2 implies has_key(
            t,
            k2,
        ) by {
            if j == i {
                assert(t[j].0 == k);
            } else {
                assert(t[j].0 == k2);
            }
        }
        if has_key(t, k2) {
            let j = choose|j: int| 0 <= j < t.len() && (#[trigger] t[j]).0 == k2;
            if j == i {
                assert(k2 == k);
            } else {
                assert(s[j].0 == k2);
            }
        }
        if k2 == k {
            assert(t[i].0 == k);
        }
    } else {
        if has_key(s, k2) {
            let j = choose|j: int| 0 <= j < s.len() && (#[trigger] s[j]).0 == k2;
            assert(t[j].0 == k2);
        }
        assert(t[s.len() as int].0 == k);
        if has_key(t, k2) && k2 != k {
            let j = choose|j: int| 0 <= j < t.len() && (#[trigger] t[j]).0 == k2;
            assert(j < s.len());
            assert(s[j].0 == k2);
        }
    }
}

/// A key found after removing an entry was already there before.
pub proof fn lemma_has_key_remove<V>(s: Seq<(Seq<char>, V)>, i: int, k: Seq<char>)
    requires
        0 <= i < s.len(),
        has_key(s.remove(i), k),
    ensures
        has_key(s, k),
{
    let t = s.remove(i);
    let j = choose|j: int| 0 <= j < t.len() && (#[trigger] t[j]).0 == k;
    if j < i {
        assert(s[j].0 == k);
    } else {
        assert(s[j + 1].0 == k);
    }
}

/// An order-preserving map from alias names to aliases.
///
/// Entries keep insertion order; replacing an existing key keeps its position,
/// and removal shifts later entries down without reordering them.
#[derive(Debug, PartialEq, Eq)]
pub struct AliasMap {
    pub entries: Vec<(String, Alias)>,
}

impl View for AliasMap {
    type V = Seq<(Seq<char>, AliasV)>;

    open spec fn view(&self) -> Seq<(Seq<char>, AliasV)> {
        self.entries@.map_values(|p: (String, Alias)| (p.0@, p.1@))
    }
}

impl AliasMap {
    /// Keys are pairwise distinct.
    pub open spec fn wf(&self) -> bool {
        distinct_keys(self@)
    }

    pub fn new() -> (r: AliasMap)
        ensures
            r@ =~= Seq::<(Seq<char>, AliasV)>::empty(),
            r.wf(),
    {
        AliasMap { entries: Vec::new() }
    }

    pub fn len(&self) -> (r: usize)
        ensures
            r == self@.len(),
    {
        self.entries.len()
    }

    pub fn is_empty(&self) -> (r: bool)
        ensures
            r == (self@.len() == 0),
    {
        self.entries.len() == 0
    }

    /// The name stored at position `i`.
    pub fn key_at(&self, i: usize) -> (r: &String)
        requires
            i < self@.len(),
        ensures
            r@ == self@[i as int].0,
    {
        &self.entries[i].0
    }

    /// The alias stored at position `i`.
    pub fn val_at(&self, i: usize) -> (r: &Alias)
        requires
            i < self@.len(),
        ensures
            r@ == self@[i as int].1,
    {
        &self.entries[i].1
    }

    /// The position of `k`, if present.
    pub(crate) fn find(&self, k: &str) -> (r: Option<usize>)
        ensures
            match r {
                Some(i) => i < self@.len() && self@[i as int].0 == k@,
                None => !has_key(self@, k@),
            },
    {
        let n = self.entries.len();
        let mut i: usize = 0;
        while i < n
            invariant
                n == self@.len(),
                i <= n,
                forall|j: int| 0 <= j < i ==> (#[trigger] self@[j]).0 != k@,
            decreases n - i,
        {
            if crate::model::str_eq(self.entries[i].0.as_str(), k) {
                return Some(i);
            }
            i = i + 1;
        }
        None
    }

    pub fn contains_key(&self, k: &str) -> (r: bool)
        ensures
            r == has_key(self@, k@),
    {
        match self.find(k) {
            Some(i) => {
                proof {
                    assert(has_key(self@, k@));
                }
                true
            },
            None => false,
        }
    }

    pub fn get(&self, k: &str) -> (r: Option<&Alias>)
        requires
            self.wf(),
        ensures
            match r {
                Some(a) => has_key(self@, k@) && a@ == value_of(self@, k@),
                None => !has_key(self@, k@),
            },
    {
        match self.find(k) {
            Some(i) => {
                proof {
                    lemma_key_index(self@, k@, i as int);
                }
                Some(&self.entries[i].1)
            },
            None => None,
        }
    }

    /// Inserts `v` under `k`: an existing key keeps its position and returns
    /// the replaced alias, a new key is appended at the end.
    pub fn insert(&mut self, k: String, v: Alias) -> (r: Option<Alias>)
        requires
            old(self).wf(),
        ensures
            final(self).wf(),
            match r {
                None => !has_key(old(self)@, k@) && final(self)@ =~= old(self)@.push((k@, v@)),
                Some(a) => has_key(old(self)@, k@) && a@ == value_of(old(self)@, k@) && final(
                self)@ =~= old(self)@.update(key_index(old(self)@, k@), (k@, v@)),
            },
    {
        match self.find(k.as_str()) {
            Some(i) => {
                proof {
                    lemma_key_index(self@, k@, i as int);
                }
                let prev = self.entries[i].1.clone();
                self.entries.set(i, (k, v));
                proof {
                    assert forall|p: int, q: int| 0 <= p < q < self@.len() implies (
                    #[trigger] self@[p]).0 != (#[trigger] self@[q]).0 by {
                        assert(old(self)@[p].0 != old(self)@[q].0);
                    }
                }
                Some(prev)
            },
            None => {
                self.entries.push((k, v));
                proof {
                    assert forall|p: int, q: int| 0 <= p < q < self@.len() implies (
                    #[trigger] self@[p]).0 != (#[trigger] self@[q]).0 by {
                        if q < old(self)@.len() {
                            assert(old(self)@[p].0 != old(self)@[q].0);
                        } else {
                            assert(self@[q].0 == k@);
                            assert(self@[p] == old(self)@[p]);
                        }
                    }
                }
                None
            },
        }
    }

    /// Removes `k`, shifting later entries down; order is otherwise kept.
    pub fn shift_remove(&mut self, k: &str) -> (r: Option<Alias>)
        requires
            old(self).wf(),
        ensures
            final(self).wf(),
            match r {
                None => !has_key(old(self)@, k@) && final(self)@ =~= old(self)@,
                Some(a) => has_key(old(self)@, k@) && a@ == value_of(old(self)@, k@) && final(
                self)@ =~= old(self)@.remove(key_index(old(self)@, k@)),
            },
    {
        match self.find(k) {
            Some(i) => {
                proof {
                    lemma_key_index(self@, k@, i as int);
                    lemma_distinct_remove(self@, i as int);
                }
                let (_, a) = self.entries.remove(i);
                proof {
                    assert(self@ =~= old(self)@.remove(i as int));
                }
                Some(a)
            },
            None => None,
        }
    }

    /// Replaces the alias at position `i`, keeping its name and position.
    pub fn set_val_at(&mut self, i: usize, v: Alias)
        requires
            old(self).wf(),
            i < old(self)@.len(),
        ensures
            final(self).wf(),
            final(self)@ =~= old(self)@.update(i as int, (old(self)@[i as int].0, v@)),
    {
        let k = self.entries[i].0.clone();
        self.entries.set(i, (k, v));
        proof {
            assert forall|p: int, q: int| 0 <= p < q < self@.len() implies (
            #[trigger] self@[p]).0 != (#[trigger] self@[q]).0 by {
                assert(old(self)@[p].0 != old(self)@[q].0);
            }
        }
    }


    /// Swaps the entries at positions `x` and `y`.
    pub fn swap_entries(&mut self, x: usize, y: usize)
        requires
            x < old(self)@.len(),
            y < old(self)@.len(),
        ensures
            final(self)@ =~= old(self)@.update(x as int, old(self)@[y as int]).update(
                y as int,
                old(self)@[x as int],
            ),
    {
        let ex = self.entries[x].0.clone();
        let ax = self.entries[x].1.clone();
        let ey = self.entries[y].0.clone();
        let ay = self.entries[y].1.clone();
        self.entries.set(x, (ey, ay));
        self.entries.set(y, (ex, ax));
    }

    pub fn clear(&mut self)
        ensures
            final(self)@ =~= Seq::<(Seq<char>, AliasV)>::empty(),
            final(self).wf(),
    {
        self.entries.clear();
    }
}


/// An order-preserving map from group names to their enabled flags.
#[derive(Debug, PartialEq, Eq)]
pub struct GroupMap {
    pub entries: Vec<(String, bool)>,
}

impl View for GroupMap {
    type V = Seq<(Seq<char>, bool)>;

    open spec fn view(&self) -> Seq<(Seq<char>, bool)> {
        self.entries@.map_values(|p: (String, bool)| (p.0@, p.1))
    }
}

impl GroupMap {
    /// Keys are pairwise distinct.
    pub open spec fn wf(&self) -> bool {
        distinct_keys(self@)
    }

    pub fn new() -> (r: GroupMap)
        ensures
            r@ =~= Seq::<(Seq<char>, bool)>::empty(),
            r.wf(),
    {
        GroupMap { entries: Vec::new() }
    }

    pub fn len(&self) -> (r: usize)
        ensures
            r == self@.len(),
    {
        self.entries.len()
    }

    /// The name stored at position `i`.
    pub fn key_at(&self, i: usize) -> (r: &String)
        requires
            i < self@.len(),
        ensures
            r@ == self@[i as int].0,
    {
        &self.entries[i].0
    }

    /// The flag stored at position `i`.
    pub fn val_at(&self, i: usize) -> (r: bool)
        requires
            i < self@.len(),
        ensures
            r == self@[i as int].1,
    {
        self.entries[i].1
    }

    /// The position of `k`, if present.
    pub(crate) fn find(&self, k: &str) -> (r: Option<usize>)
        ensures
            match r {
                Some(i) => i < self@.len() && self@[i as int].0 == k@,
                None => !has_key(self@, k@),
            },
    {
        let n = self.entries.len();
        let mut i: usize = 0;
        while i < n
            invariant
                n == self@.len(),
                i <= n,
                forall|j: int| 0 <= j < i ==> (#[trigger] self@[j]).0 != k@,
            decreases n - i,
        {
            if crate::model::str_eq(self.entries[i].0.as_str(), k) {
                return Some(i);
            }
            i = i + 1;
        }
        None
    }

    pub fn contains_key(&self, k: &str) -> (r: bool)
        ensures
            r == has_key(self@, k@),
    {
        match self.find(k) {
            Some(_) => {
                proof {
                    assert(has_key(self@, k@));
                }
                true
            },
            None => false,
        }
    }

    pub fn get(&self, k: &str) -> (r: Option<bool>)
        requires
            self.wf(),
        ensures
            match r {
                Some(b) => has_key(self@, k@) && b == value_of(self@, k@),
                None => !has_key(self@, k@),
            },
    {
        match self.find(k) {
            Some(i) => {
                proof {
                    lemma_key_index(self@, k@, i as int);
                }
                Some(self.entries[i].1)
            },
            None => None,
        }
    }

    /// Inserts `v` under `k`: an existing key keeps its position and returns
    /// the replaced flag, a new key is appended at the end.
    pub fn insert(&mut self, k: String, v: bool) -> (r: Option<bool>)
        requires
            old(self).wf(),
        ensures
            final(self).wf(),
            match r {
                None => !has_key(old(self)@, k@) && final(self)@ =~= old(self)@.push((k@, v)),
                Some(b) => has_key(old(self)@, k@) && b == value_of(old(self)@, k@) && final(
                self)@ =~= old(self)@.update(key_index(old(self)@, k@), (k@, v)),
            },
    {
        match self.find(k.as_str()) {
            Some(i) => {
                proof {
                    lemma_key_index(self@, k@, i as int);
                }
                let prev = self.entries[i].1;
                self.entries.set(i, (k, v));
                proof {
                    assert forall|p: int, q: int| 0 <= p < q < self@.len() implies (
                    #[trigger] self@[p]).0 != (#[trigger] self@[q]).0 by {
                        assert(old(self)@[p].0 != old(self)@[q].0);
                    }
                }
                Some(prev)
            },
            None => {
                self.entries.push((k, v));
                proof {
                    assert forall|p: int, q: int| 0 <= p < q < self@.len() implies (
                    #[trigger] self@[p]).0 != (#[trigger] self@[q]).0 by {
                        if q < old(self)@.len() {
                            assert(old(self)@[p].0 != old(self)@[q].0);
                        } else {
                            assert(self@[q].0 == k@);
                            assert(self@[p] == old(self)@[p]);
                        }
                    }
                }
                None
            },
        }
    }

    /// Removes `k`, shifting later entries down; order is otherwise kept.
    pub fn shift_remove(&mut self, k: &str) -> (r: Option<bool>)
        requires
            old(self).wf(),
        ensures
            final(self).wf(),
            match r {
                None => !has_key(old(self)@, k@) && final(self)@ =~= old(self)@,
                Some(b) => has_key(old(self)@, k@) && b == value_of(old(self)@, k@) && final(
                self)@ =~= old(self)@.remove(key_index(old(self)@, k@)),
            },
    {
        match self.find(k) {
            Some(i) => {
                proof {
                    lemma_key_index(self@, k@, i as int);
                    lemma_distinct_remove(self@, i as int);
                }
                let (_, b) = self.entries.remove(i);
                proof {
                    assert(self@ =~= old(self)@.remove(i as int));
                }
                Some(b)
            },
            None => None,
        }
    }

    /// Replaces the flag at position `i`, keeping the name and position.
    pub fn set_val_at(&mut self, i: usize, v: bool)
        requires
            old(self).wf(),
            i < old(self)@.len(),
        ensures
            final(self).wf(),
            final(self)@ =~= old(self)@.update(i as int, (old(self)@[i as int].0, v)),
    {
        let k = self.entries[i].0.clone();
        self.entries.set(i, (k, v));
        proof {
            assert forall|p: int, q: int| 0 <= p < q < self@.len() implies (
            #[trigger] self@[p]).0 != (#[trigger] self@[q]).0 by {
                assert(old(self)@[p].0 != old(self)@[q].0);
            }
        }
    }


    /// Swaps the entries at positions `x` and `y`.
    pub fn swap_entries(&mut self, x: usize, y: usize)
        requires
            x < old(self)@.len(),
            y < old(self)@.len(),
        ensures
            final(self)@ =~= old(self)@.update(x as int, old(self)@[y as int]).update(
                y as int,
                old(self)@[x as int],
            ),
    {
        let ex = self.entries[x].0.clone();
        let bx = self.entries[x].1;
        let ey = self.entries[y].0.clone();
        let by = self.entries[y].1;
        self.entries.set(x, (ey, by));
        self.entries.set(y, (ex, bx));
    }

    pub fn clear(&mut self)
        ensures
            final(self)@ =~= Seq::<(Seq<char>, bool)>::empty(),
            final(self).wf(),
    {
        self.entries.clear();
    }
}

/// The whole configuration: aliases and groups, each in stored order.
///
/// The two name spaces are independent; an alias and a group may share a
/// name. An alias's `group` field is a plain name, looked up in `groups` at
/// each point of use.
#[derive(Debug, PartialEq, Eq)]
pub struct Config {
    pub aliases: AliasMap,
    pub groups: GroupMap,
}

impl Config {
    pub open spec fn wf(&self) -> bool {
        self.aliases.wf() && self.groups.wf()
    }

    /// Every group an alias points to is present.
    pub open spec fn groups_closed(&self) -> bool {
        forall|i: int|
            0 <= i < self.aliases@.len() ==> match (#[trigger] self.aliases@[i]).1.group {
                Some(g) => has_key(self.groups@, g),
                None => true,
            }
    }

    /// Every stored alias respects the shorthand discipline.
    pub open spec fn aliases_wf(&self) -> bool {
        forall|i: int| 0 <= i < self.aliases@.len() ==> (#[trigger] self.aliases@[i]).1.wf()
    }

    pub fn new() -> (r: Config)
        ensures
            r@.aliases =~= Seq::<(Seq<char>, AliasV)>::empty(),
            r@.groups =~= Seq::<(Seq<char>, bool)>::empty(),
            r.wf(),
    {
        Config { aliases: AliasMap::new(), groups: GroupMap::new() }
    }
}

/// Mathematical value of a [`Config`].
pub ghost struct ConfigV {
    pub aliases: Seq<(Seq<char>, AliasV)>,
    pub groups: Seq<(Seq<char>, bool)>,
}

impl View for Config {
    type V = ConfigV;

    open spec fn view(&self) -> ConfigV {
        ConfigV { aliases: self.aliases@, groups: self.groups@ }
    }
}

/// Relies on `str`'s `PartialEq`: two string slices are equal exactly when
/// their character sequences are.
#[verifier::external_body]
pub fn str_eq(a: &str, b: &str) -> (r: bool)
    ensures
        r == (a@ == b@),
{
    a == b
}

} // verus!
