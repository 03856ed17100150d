//! ASCII case folding for registry keys.
//!
//! Names of variables, constants and callables are compared ignoring ASCII
//! case while the originally inserted casing is kept for display.  The
//! mathematical key of a name is its *fold*: the sequence of scalar values
//! of its characters with `A`..`Z` mapped onto `a`..`z`.

use vstd::prelude::*;

verus! {

/// The folded scalar value of one character: upper-case ASCII letters map
/// to their lower-case counterpart, every other character to itself.
pub open spec fn fold_char(c: char) -> int {
    if 'A' <= c && c <= 'Z' {
        c as int + 32
    } else {
        c as int
    }
}

/// The fold of a whole name: the sequence of folded scalar values.
pub open spec fn fold(s: Seq<char>) -> Seq<int> {
    Seq::new(s.len(), |i: int| fold_char(s[i]))
}

/// Compares two characters ignoring ASCII case.
pub fn fold_char_eq(a: char, b: char) -> (r: bool)
    ensures
        r == (fold_char(a) == fold_char(b)),
{
    let au: u32 = if 'A' <= a && a <= 'Z' { a as u32 + 32 } else { a as u32 };
    let bu: u32 = if 'A' <= b && b <= 'Z' { b as u32 + 32 } else { b as u32 };
    au == bu
}

/// Compares two names ignoring ASCII case.
pub fn str_fold_eq(a: &str, b: &str) -> (r: bool)
    ensures
        r == (fold(a@) == fold(b@)),
{
    let alen = a.unicode_len();
    let blen = b.unicode_len();
    if alen != blen {
        proof {
            assert(fold(a@).len() != fold(b@).len());
        }
        return false;
    }
    let mut i: usize = 0;
    while i < alen
        invariant
            alen == a@.len(),
            blen == b@.len(),
            alen == blen,
            i <= alen,
            forall|j: int| 0 <= j < i ==> fold_char(a@[j]) == fold_char(b@[j]),
        decreases alen - i,
    {
        if !fold_char_eq(a.get_char(i), b.get_char(i)) {
            proof {
                assert(fold(a@)[i as int] != fold(b@)[i as int]);
            }
            return false;
        }
        i = i + 1;
    }
    proof {
        assert(fold(a@) =~= fold(b@));
    }
    true
}

/// A name-keyed table whose keys compare ignoring ASCII case while the
/// originally inserted casing is kept for display.
///
/// Its mathematical content is a `Map` from folded names to values; an
/// entry hides every later entry with the same folded key.
pub struct IgnoreCaseMap<V> {
    entries: Vec<(String, V)>,
}

/// The first value whose stored name folds to `key`, scanning from the
/// front.
pub open spec fn assoc_lookup<V>(s: Seq<(String, V)>, key: Seq<int>) -> Option<V>
    decreases s.len(),
{
    if s.len() == 0 {
        None
    } else if fold(s[0].0@) == key {
        Some(s[0].1)
    } else {
        assoc_lookup(s.drop_first(), key)
    }
}

/// The map held by an entry sequence: each folded name goes to the value
/// of its first entry.
pub open spec fn assoc_view<V>(s: Seq<(String, V)>) -> Map<Seq<int>, V>
    decreases s.len(),
{
    if s.len() == 0 {
        Map::empty()
    } else {
        assoc_view(s.drop_first()).insert(fold(s[0].0@), s[0].1)
    }
}

/// Scanning for the first matching entry computes the map of the sequence.
pub proof fn lemma_assoc_lookup_is_view<V>(s: Seq<(String, V)>, key: Seq<int>)
    ensures
        assoc_lookup(s, key) == assoc_view(s).get(key),
    decreases s.len(),
{
    if s.len() > 0 {
        lemma_assoc_lookup_is_view(s.drop_first(), key);
    }
}

/// Skipping entries that do not match the key leaves the lookup unchanged.
pub proof fn lemma_assoc_lookup_skip<V>(s: Seq<(String, V)>, key: Seq<int>, i: int)
    requires
        0 <= i <= s.len(),
        forall|j: int| 0 <= j < i ==> fold(s[j].0@) != key,
    ensures
        assoc_lookup(s, key) == assoc_lookup(s.skip(i), key),
    decreases i,
{
    if i > 0 {
        assert(fold(s[0].0@) != key);
        assert forall|j: int| 0 <= j < i - 1 implies fold(s.drop_first()[j].0@) != key by {
            assert(s.drop_first()[j] == s[j + 1]);
        }
        lemma_assoc_lookup_skip(s.drop_first(), key, i - 1);
        assert(s.drop_first().skip(i - 1) =~= s.skip(i));
        assert(assoc_lookup(s, key) == assoc_lookup(s.drop_first(), key));
    } else {
        assert(s.skip(0) =~= s);
    }
}

/// Replacing the value of the first entry that matches its own folded name
/// updates the map at that name.
pub proof fn lemma_assoc_update<V>(s: Seq<(String, V)>, i: int, v: V)
    requires
        0 <= i < s.len(),
        forall|j: int| 0 <= j < i ==> fold(s[j].0@) != fold(s[i].0@),
    ensures
        assoc_view(s.update(i, (s[i].0, v))) == assoc_view(s).insert(fold(s[i].0@), v),
    decreases i,
{
    let key = fold(s[i].0@);
    if i == 0 {
        assert(s.update(0, (s[0].0, v)).drop_first() =~= s.drop_first());
        assert(assoc_view(s.drop_first()).insert(key, s[0].1).insert(key, v) =~= assoc_view(
            s.drop_first(),
        ).insert(key, v));
    } else {
        let r = s.drop_first();
        assert(s.update(i, (s[i].0, v)).drop_first() =~= r.update(i - 1, (r[i - 1].0, v)));
        lemma_assoc_update(r, i - 1, v);
        let k0 = fold(s[0].0@);
        assert(k0 != key);
        assert(assoc_view(r).insert(key, v).insert(k0, s[0].1) =~= assoc_view(r).insert(
            k0,
            s[0].1,
        ).insert(key, v));
    }
}

/// Appending an entry whose folded name is absent adds it to the map.
pub proof fn lemma_assoc_push_absent<V>(s: Seq<(String, V)>, name: String, v: V)
    requires
        assoc_lookup(s, fold(name@)) is None,
    ensures
        assoc_view(s.push((name, v))) == assoc_view(s).insert(fold(name@), v),
    decreases s.len(),
{
    let key = fold(name@);
    if s.len() == 0 {
        let p = s.push((name, v));
        assert(p[0] == (name, v));
        assert(p.drop_first() =~= Seq::<(String, V)>::empty());
        assert(assoc_view(p.drop_first()) =~= Map::<Seq<int>, V>::empty());
        assert(assoc_view(p) =~= assoc_view(s).insert(key, v));
    } else {
        let k0 = fold(s[0].0@);
        assert(s.push((name, v)).drop_first() =~= s.drop_first().push((name, v)));
        lemma_assoc_push_absent(s.drop_first(), name, v);
        assert(k0 != key);
        assert(assoc_view(s.drop_first()).insert(key, v).insert(k0, s[0].1) =~= assoc_view(
            s.drop_first(),
        ).insert(k0, s[0].1).insert(key, v));
    }
}

impl<V: Copy> IgnoreCaseMap<V> {
    /// The map held by this table.
    pub closed spec fn spec_map(self) -> Map<Seq<int>, V> {
        assoc_view(self.entries@)
    }

    /// The stored entries, in insertion order and original casing.
    pub closed spec fn spec_entries(self) -> Seq<(String, V)> {
        self.entries@
    }

    /// Creates an empty table.
    pub fn new() -> (r: IgnoreCaseMap<V>)
        ensures
            r.spec_map() == Map::<Seq<int>, V>::empty(),
            r.spec_entries() == Seq::<(String, V)>::empty(),
    {
        IgnoreCaseMap { entries: Vec::new() }
    }

    /// The stored entries, in insertion order and original casing.
    pub fn entries(&self) -> (r: &Vec<(String, V)>)
        ensures
            r@ == self.spec_entries(),
    {
        &self.entries
    }

    /// The index of the first entry whose name folds like `name`, if any.
    fn find(&self, name: &str) -> (r: Option<usize>)
        ensures
            match r {
                Some(i) => {
                    &&& i < self.spec_entries().len()
                    &&& fold(self.spec_entries()[i as int].0@) == fold(name@)
                    &&& forall|j: int|
                        0 <= j < i ==> fold(self.spec_entries()[j].0@) != fold(name@)
                },
                None => forall|j: int|
                    0 <= j < self.spec_entries().len() ==> fold(self.spec_entries()[j].0@) != fold(
                        name@,
                    ),
            },
    {
        let n = self.entries.len();
        let mut i: usize = 0;
        while i < n
            invariant
                n == self.entries@.len(),
                i <= n,
                forall|j: int| 0 <= j < i ==> fold(self.entries@[j].0@) != fold(name@),
            decreases n - i,
        {
            if str_fold_eq(self.entries[i].0.as_str(), name) {
                return Some(i);
            }
            i = i + 1;
        }
        None
    }

    /// Looks a name up, ignoring ASCII case.
    pub fn get(&self, name: &str) -> (r: Option<V>)
        ensures
            r == self.spec_map().get(fold(name@)),
    {
        proof {
            lemma_assoc_lookup_is_view(self.entries@, fold(name@));
        }
        match self.find(name) {
            Some(i) => {
                proof {
                    lemma_assoc_lookup_skip(self.entries@, fold(name@), i as int);
                }
                Some(self.entries[i].1)
            },
            None => {
                proof {
                    assert forall|j: int| 0 <= j < self.entries@.len() implies fold(
                        self.entries@[j].0@,
                    ) != fold(name@) by {
                        assert(fold(self.spec_entries()[j].0@) != fold(name@));
                    }
                    lemma_assoc_lookup_skip(
                        self.entries@,
                        fold(name@),
                        self.entries@.len() as int,
                    );
                    assert(self.entries@.skip(self.entries@.len() as int) =~= Seq::<(
                        String,
                        V,
                    )>::empty());
                }
                None
            },
        }
    }

    /// Whether a name is present, ignoring ASCII case.
    pub fn contains(&self, name: &str) -> (r: bool)
        ensures
            r == self.spec_map().contains_key(fold(name@)),
    {
        self.get(name).is_some()
    }

    /// Binds a name to a value: an existing binding keeps its stored
    /// casing and changes its value, a new one is appended.  Returns the
    /// replaced value, if any.
    pub fn set(&mut self, name: &str, value: V) -> (r: Option<V>)
        ensures
            final (self).spec_map() == old(self).spec_map().insert(fold(name@), value),
            r == old(self).spec_map().get(fold(name@)),
    {
        proof {
            lemma_assoc_lookup_is_view(self.entries@, fold(name@));
        }
        match self.find(name) {
            Some(i) => {
                proof {
                    lemma_assoc_lookup_skip(self.entries@, fold(name@), i as int);
                    lemma_assoc_update(self.entries@, i as int, value);
                }
                let (stored, old_value) = self.entries.remove(i);
                self.entries.insert(i, (stored, value));
                proof {
                    assert(self.entries@ =~= old(self).entries@.update(
                        i as int,
                        (old(self).entries@[i as int].0, value),
                    ));
                }
                Some(old_value)
            },
            None => {
                let stored = name.to_owned();
                proof {
                    assert forall|j: int| 0 <= j < self.entries@.len() implies fold(
                        self.entries@[j].0@,
                    ) != fold(name@) by {
                        assert(fold(self.spec_entries()[j].0@) != fold(name@));
                    }
                    lemma_assoc_lookup_skip(self.entries@, fold(name@), self.entries@.len() as int);
                    assert(self.entries@.skip(self.entries@.len() as int) =~= Seq::<(
                        String,
                        V,
                    )>::empty());
                    lemma_assoc_push_absent(self.entries@, stored, value);
                }
                self.entries.push((stored, value));
                None
            },
        }
    }
}

/// The ASCII upper-casing of a name: `a`..`z` map to `A`..`Z`, every other
/// character stays.  It is the reference "other casing" of the
/// case-insensitivity law.
pub open spec fn upper_char(c: char) -> char {
    if 'a' <= c && c <= 'z' {
        (c as int - 32) as char
    } else {
        c
    }
}

/// The ASCII upper-casing of a whole name.
pub open spec fn upper(s: Seq<char>) -> Seq<char> {
    Seq::new(s.len(), |i: int| upper_char(s[i]))
}

/// Case folding erases upper-casing: a name and its upper-cased form have
/// the same fold, so they address the same registry entry.
pub proof fn lemma_fold_upper(s: Seq<char>)
    ensures
        fold(upper(s)) == fold(s),
{
    assert forall|i: int| 0 <= i < s.len() implies fold_char(upper_char(s[i])) == fold_char(
        s[i],
    ) by {
        let c = s[i];
        if 'a' <= c && c <= 'z' {
            assert('a' as int == 97);
            assert('z' as int == 122);
        }
    }
    assert(fold(upper(s)) =~= fold(s));
}

} // verus!
