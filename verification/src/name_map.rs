//! A map from names to values that keeps its names unique and in ascending
//! order, as an ordered map keyed by `String` does.
use vstd::prelude::*;

verus! {

/// Lexicographic order on character sequences, which for strings is the
/// order of `str`'s `Ord` (byte order of the UTF-8 encoding).
pub open spec fn chars_lt(a: Seq<char>, b: Seq<char>) -> bool
    decreases a.len(),
{
    if a.len() == 0 {
        b.len() > 0
    } else if b.len() == 0 {
        false
    } else if a[0] != b[0] {
        a[0] < b[0]
    } else {
        chars_lt(a.drop_first(), b.drop_first())
    }
}

pub proof fn lemma_chars_lt_irreflexive(a: Seq<char>)
    ensures
        !chars_lt(a, a),
    decreases a.len(),
{
    if a.len() > 0 {
        lemma_chars_lt_irreflexive(a.drop_first());
    }
}

pub proof fn lemma_chars_lt_asymmetric(a: Seq<char>, b: Seq<char>)
    ensures
        !(chars_lt(a, b) && chars_lt(b, a)),
    decreases a.len(),
{
    if a.len() > 0 && b.len() > 0 && a[0] == b[0] {
        lemma_chars_lt_asymmetric(a.drop_first(), b.drop_first());
    }
}

pub proof fn lemma_chars_lt_transitive(a: Seq<char>, b: Seq<char>, c: Seq<char>)
    requires
        chars_lt(a, b),
        chars_lt(b, c),
    ensures
        chars_lt(a, c),
    decreases a.len(),
{
    if a.len() > 0 && b.len() > 0 && c.len() > 0 && a[0] == b[0] && b[0] == c[0] {
        lemma_chars_lt_transitive(a.drop_first(), b.drop_first(), c.drop_first());
    }
}

pub proof fn lemma_chars_lt_total(a: Seq<char>, b: Seq<char>)
    ensures
        a == b || chars_lt(a, b) || chars_lt(b, a),
    decreases a.len(),
{
    if a.len() > 0 && b.len() > 0 && a[0] == b[0] {
        lemma_chars_lt_total(a.drop_first(), b.drop_first());
        if a.drop_first() == b.drop_first() {
            assert(a =~= seq![a[0]] + a.drop_first());
            assert(b =~= seq![b[0]] + b.drop_first());
        }
    } else if a.len() == 0 && b.len() == 0 {
        assert(a =~= b);
    }
}

/// The order of two names at their first difference.
proof fn lemma_chars_lt_at(a: Seq<char>, b: Seq<char>, k: int)
    requires
        0 <= k <= a.len(),
        k <= b.len(),
        forall|i: int| 0 <= i < k ==> a[i] == b[i],
        k == a.len() || k == b.len() || a[k] != b[k],
    ensures
        chars_lt(a, b) == ((k == a.len() && k < b.len()) || (k < a.len() && k < b.len() && a[k]
            < b[k])),
    decreases k,
{
    if k > 0 {
        lemma_chars_lt_at(a.drop_first(), b.drop_first(), k - 1);
    }
}

/// `a < b` on names.
pub fn name_lt(a: &str, b: &str) -> (r: bool)
    ensures
        r == chars_lt(a@, b@),
{
    let n = a.unicode_len();
    let m = b.unicode_len();
    let mut k: usize = 0;
    while k < n && k < m && a.get_char(k) == b.get_char(k)
        invariant
            n == a@.len(),
            m == b@.len(),
            k <= n,
            k <= m,
            forall|i: int| 0 <= i < k ==> a@[i] == b@[i],
        decreases n - k,
    {
        k = k + 1;
    }
    proof {
        lemma_chars_lt_at(a@, b@, k as int);
    }
    if k == n {
        k < m
    } else if k == m {
        false
    } else {
        a.get_char(k) < b.get_char(k)
    }
}

/// The names of a sequence of entries.
pub open spec fn entry_names<V>(entries: Seq<(String, V)>) -> Seq<Seq<char>> {
    entries.map_values(|e: (String, V)| e.0@)
}

/// Names in strictly ascending order (so none occurs twice).
pub open spec fn ascending(names: Seq<Seq<char>>) -> bool {
    forall|i: int, j: int| 0 <= i < j < names.len() ==> chars_lt(names[i], names[j])
}

/// The value stored under `name`, looked up from the front.
pub open spec fn lookup<V>(entries: Seq<(String, V)>, name: Seq<char>) -> Option<V>
    decreases entries.len(),
{
    if entries.len() == 0 {
        None
    } else if entries[0].0@ == name {
        Some(entries[0].1)
    } else {
        lookup(entries.drop_first(), name)
    }
}

pub proof fn lemma_lookup_index<V>(entries: Seq<(String, V)>, name: Seq<char>, k: int)
    requires
        0 <= k < entries.len(),
        entries[k].0@ == name,
        forall|i: int| 0 <= i < k ==> entries[i].0@ != name,
    ensures
        lookup(entries, name) == Some(entries[k].1),
    decreases k,
{
    if k > 0 {
        lemma_lookup_index(entries.drop_first(), name, k - 1);
    }
}

pub proof fn lemma_lookup_absent<V>(entries: Seq<(String, V)>, name: Seq<char>)
    requires
        forall|i: int| 0 <= i < entries.len() ==> entries[i].0@ != name,
    ensures
        lookup(entries, name) is None,
    decreases entries.len(),
{
    if entries.len() > 0 {
        lemma_lookup_absent(entries.drop_first(), name);
    }
}

pub proof fn lemma_lookup_some<V>(entries: Seq<(String, V)>, name: Seq<char>)
    requires
        lookup(entries, name) is Some,
    ensures
        exists|k: int|
            0 <= k < entries.len() && entries[k].0@ == name && lookup(entries, name) == Some(
                entries[k].1,
            ),
    decreases entries.len(),
{
    if entries[0].0@ != name {
        lemma_lookup_some(entries.drop_first(), name);
        let k = choose|k: int|
            0 <= k < entries.drop_first().len() && entries.drop_first()[k].0@ == name && lookup(
                entries.drop_first(),
                name,
            ) == Some(entries.drop_first()[k].1);
        assert(entries[k + 1] == entries.drop_first()[k]);
    }
}

/// Names mapped to values, unique and in ascending order.
#[derive(Debug)]
pub struct NameMap<V> {
    entries: Vec<(String, V)>,
}

impl<V> NameMap<V> {
    /// The entries, in ascending order of name.
    pub closed spec fn entries(&self) -> Seq<(String, V)> {
        self.entries@
    }

    /// The names, in ascending order.
    pub open spec fn names(&self) -> Seq<Seq<char>> {
        entry_names(self.entries())
    }

    pub open spec fn get_spec(&self, name: Seq<char>) -> Option<V> {
        lookup(self.entries(), name)
    }

    /// The names are in strictly ascending order.
    #[verifier::type_invariant]
    pub open spec fn wf(self) -> bool {
        ascending(self.names())
    }

    /// An empty map.
    pub fn new() -> (m: Self)
        ensures
            m.entries() == Seq::<(String, V)>::empty(),
    {
        let m = NameMap { entries: Vec::new() };
        assert(entry_names(m.entries@) =~= Seq::<Seq<char>>::empty());
        m
    }

    pub fn len(&self) -> (n: usize)
        ensures
            n == self.entries().len(),
    {
        self.entries.len()
    }

    pub fn is_empty(&self) -> (r: bool)
        ensures
            r == (self.entries().len() == 0),
    {
        self.entries.len() == 0
    }

    /// The name of the `i`-th entry.
    pub fn name_at(&self, i: usize) -> (name: &String)
        requires
            i < self.entries().len(),
        ensures
            *name == self.entries()[i as int].0,
    {
        &self.entries[i].0
    }

    /// The value of the `i`-th entry.
    pub fn value_at(&self, i: usize) -> (value: &V)
        requires
            i < self.entries().len(),
        ensures
            *value == self.entries()[i as int].1,
    {
        &self.entries[i].1
    }

    /// The value stored under `name`.
    pub fn get(&self, name: &str) -> (r: Option<&V>)
        ensures
            r matches Some(v) ==> self.get_spec(name@) == Some(*v),
            r is None ==> self.get_spec(name@) is None,
    {
        let n = self.entries.len();
        for i in 0..n
            invariant
                n == self.entries@.len(),
                forall|j: int| 0 <= j < i ==> self.entries@[j].0@ != name@,
        {
            if crate::text::str_eq(self.entries[i].0.as_str(), name) {
                proof {
                    lemma_lookup_index(self.entries@, name@, i as int);
                }
                return Some(&self.entries[i].1);
            }
        }
        proof {
            lemma_lookup_absent(self.entries@, name@);
        }
        None
    }

    pub fn contains_key(&self, name: &str) -> (r: bool)
        ensures
            r == self.get_spec(name@) is Some,
    {
        self.get(name).is_some()
    }

    /// Stores `value` under `name`, replacing the value stored there before.
    pub fn insert(&mut self, name: String, value: V)
        ensures
            final(self).get_spec(name@) == Some(value),
            forall|other: Seq<char>|
                other != name@ ==> #[trigger] final(self).get_spec(other) == old(self).get_spec(
                    other,
                ),
            forall|other: Seq<char>|
                #[trigger] final(self).names().contains(other) <==> (other == name@ || old(
                    self,
                ).names().contains(other)),
    {
        proof {
            use_type_invariant(&*self);
        }
        let mut entries: Vec<(String, V)> = Vec::new();
        std::mem::swap(&mut entries, &mut self.entries);
        let ghost old_entries = entries@;
        let ghost names = entry_names(old_entries);
        let n = entries.len();
        let mut i: usize = 0;
        while i < n && name_lt(entries[i].0.as_str(), name.as_str())
            invariant
                n == entries@.len(),
                entries@ == old_entries,
                names == entry_names(old_entries),
                ascending(names),
                i <= n,
                forall|j: int| 0 <= j < i ==> chars_lt(#[trigger] names[j], name@),
            decreases n - i,
        {
            assert(names[i as int] == entries@[i as int].0@);
            i = i + 1;
        }
        // every name from position i on is at least `name`
        assert forall|j: int| i <= j < n implies !chars_lt(#[trigger] names[j], name@) by {
            assert(names[i as int] == old_entries[i as int].0@);
            if j > i {
                assert(chars_lt(names[i as int], names[j]));
                if chars_lt(names[j], name@) {
                    lemma_chars_lt_transitive(names[i as int], names[j], name@);
                }
            }
        }
        let replace = i < n && crate::text::str_eq(entries[i].0.as_str(), name.as_str());
        let ghost key = name@;
        if replace {
            entries.set(i, (name, value));
            proof {
                let new_entries = entries@;
                assert(entry_names(new_entries) =~= names);
                assert(names[i as int] == key);
                assert(names.contains(key));
                assert forall|j: int| 0 <= j < n && j != i implies new_entries[j]
                    == old_entries[j] by {}
                assert forall|j: int| 0 <= j < i implies new_entries[j].0@ != key by {
                    assert(names[j] == old_entries[j].0@);
                    lemma_chars_lt_irreflexive(key);
                }
                lemma_lookup_index(new_entries, key, i as int);
                assert forall|other: Seq<char>| other != key implies lookup(new_entries, other)
                    == lookup(old_entries, other) by {
                    lemma_lookup_same_except(old_entries, new_entries, i as int, other);
                }
            }
        } else {
            entries.insert(i, (name, value));
            proof {
                let new_entries = entries@;
                let new_names = entry_names(new_entries);
                assert(new_names =~= names.insert(i as int, key));
                // strictly greater than `key` from position i on
                assert forall|j: int| i <= j < n implies chars_lt(key, #[trigger] names[j]) by {
                    assert(names[j] == old_entries[j].0@);
                    lemma_chars_lt_total(names[j], key);
                    if j == i {
                        assert(names[j] != key);
                    } else {
                        assert(chars_lt(names[i as int], names[j]));
                        assert(names[i as int] == old_entries[i as int].0@);
                        lemma_chars_lt_total(names[i as int], key);
                        if names[i as int] == key {
                        } else {
                            lemma_chars_lt_transitive(key, names[i as int], names[j]);
                        }
                    }
                }
                assert forall|a: int, b: int| 0 <= a < b < new_names.len() implies chars_lt(
                    new_names[a],
                    new_names[b],
                ) by {
                    if b < i {
                    } else if b == i {
                    } else if a < i {
                        lemma_chars_lt_transitive(new_names[a], key, new_names[b]);
                    } else if a == i {
                    } else {
                    }
                }
                assert forall|j: int| 0 <= j < i implies new_entries[j].0@ != key by {
                    assert(names[j] == old_entries[j].0@);
                    lemma_chars_lt_irreflexive(key);
                }
                lemma_lookup_index(new_entries, key, i as int);
                assert forall|other: Seq<char>| other != key implies lookup(new_entries, other)
                    == lookup(old_entries, other) by {
                    lemma_lookup_inserted(old_entries, new_entries, i as int, other);
                }
                assert forall|other: Seq<char>| #[trigger]
                    new_names.contains(other) <==> (other == key || names.contains(other)) by {
                    if new_names.contains(other) {
                        let k = choose|k: int| 0 <= k < new_names.len() && new_names[k] == other;
                        if k < i {
                            assert(names[k] == other);
                        } else if k > i {
                            assert(names[k - 1] == other);
                        }
                    }
                    if names.contains(other) {
                        let k = choose|k: int| 0 <= k < names.len() && names[k] == other;
                        if k < i {
                            assert(new_names[k] == other);
                        } else {
                            assert(new_names[k + 1] == other);
                        }
                    }
                    if other == key {
                        assert(new_names[i as int] == other);
                    }
                }
            }
        }
        self.entries = entries;
    }
}

proof fn lemma_lookup_same_except<V>(
    old_entries: Seq<(String, V)>,
    new_entries: Seq<(String, V)>,
    i: int,
    other: Seq<char>,
)
    requires
        0 <= i < old_entries.len(),
        new_entries.len() == old_entries.len(),
        forall|j: int| 0 <= j < old_entries.len() && j != i ==> new_entries[j] == old_entries[j],
        new_entries[i].0@ == old_entries[i].0@,
        old_entries[i].0@ != other,
    ensures
        lookup(new_entries, other) == lookup(old_entries, other),
    decreases old_entries.len(),
{
    if old_entries.len() > 0 && i > 0 {
        lemma_lookup_same_except(old_entries.drop_first(), new_entries.drop_first(), i - 1, other);
    } else if i == 0 {
        assert(new_entries.drop_first() =~= old_entries.drop_first());
    }
}

proof fn lemma_lookup_inserted<V>(
    old_entries: Seq<(String, V)>,
    new_entries: Seq<(String, V)>,
    i: int,
    other: Seq<char>,
)
    requires
        0 <= i <= old_entries.len(),
        new_entries == old_entries.insert(i, new_entries[i]),
        new_entries[i].0@ != other,
    ensures
        lookup(new_entries, other) == lookup(old_entries, other),
    decreases old_entries.len(),
{
    if i == 0 {
        assert(new_entries.drop_first() =~= old_entries);
    } else {
        assert(new_entries.drop_first() =~= old_entries.drop_first().insert(
            i - 1,
            new_entries[i],
        ));
        lemma_lookup_inserted(old_entries.drop_first(), new_entries.drop_first(), i - 1, other);
    }
}

} // verus!
