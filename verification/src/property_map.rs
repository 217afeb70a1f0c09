//! Generic keyed posting-list store: property name -> value -> posting list.
//!
//! Posting lists are append-only: inserting under an existing (name, value)
//! key appends to its list and never overwrites or deduplicates earlier
//! entries. Lookups of absent names or values are recoverable outcomes, not
//! errors: an absent key simply has an empty posting list.

use vstd::prelude::*;
use vstd::string::StrSliceExecFns;

use crate::index_types::PropertyName;
use crate::index_types::WordFrequency;

verus! {

/// A key type usable for posting-list lookup: it carries a mathematical key
/// and an equality test that agrees with it.
pub trait IndexKey: Sized {
    /// The mathematical value this key stands for.
    type K;

    /// The mathematical key.
    spec fn key(&self) -> Self::K;

    /// Decides equality of the mathematical keys.
    fn key_eq(&self, other: &Self) -> (b: bool)
        ensures
            b == (self.key() == other.key()),
    ;
}

impl IndexKey for String {
    type K = Seq<char>;

    open spec fn key(&self) -> Seq<char> {
        self@
    }

    fn key_eq(&self, other: &Self) -> (b: bool) {
        *self == *other
    }
}

impl IndexKey for u32 {
    type K = u32;

    open spec fn key(&self) -> u32 {
        *self
    }

    fn key_eq(&self, other: &Self) -> (b: bool) {
        *self == *other
    }
}

/// Character-by-character string comparison.
fn str_eq(a: &str, b: &str) -> (r: bool)
    ensures
        r == (a@ == b@),
{
    let na = a.unicode_len();
    let nb = b.unicode_len();
    if na != nb {
        proof {
            assert(a@ != b@);
        }
        return false;
    }
    let mut i: usize = 0;
    while i < na
        invariant
            na == a@.len(),
            na == b@.len(),
            i <= na,
            forall|k: int| 0 <= k < i ==> a@[k] == b@[k],
        decreases na - i,
    {
        if a.get_char(i) != b.get_char(i) {
            proof {
                assert(a@[i as int] != b@[i as int]);
            }
            return false;
        }
        i += 1;
    }
    proof {
        assert(a@ =~= b@);
    }
    true
}

/// One indexed value and the posting list recorded for it.
pub struct ValueEntry<T> {
    pub value: T,
    pub postings: Vec<WordFrequency>,
}

/// The posting list recorded under key `k`; the first matching entry counts,
/// and an absent key has an empty list.
pub open spec fn postings_in<T: IndexKey>(s: Seq<ValueEntry<T>>, k: T::K) -> Seq<WordFrequency>
    decreases s.len(),
{
    if s.len() == 0 {
        Seq::empty()
    } else if s[0].value.key() == k {
        s[0].postings@
    } else {
        postings_in(s.drop_first(), k)
    }
}

/// Whether some entry carries key `k`.
pub open spec fn has_key_in<T: IndexKey>(s: Seq<ValueEntry<T>>, k: T::K) -> bool
    decreases s.len(),
{
    if s.len() == 0 {
        false
    } else {
        s[0].value.key() == k || has_key_in(s.drop_first(), k)
    }
}

/// An absent key has an empty posting list.
proof fn lemma_absent_postings_empty<T: IndexKey>(s: Seq<ValueEntry<T>>, k: T::K)
    requires
        !has_key_in(s, k),
    ensures
        postings_in(s, k) == Seq::<WordFrequency>::empty(),
    decreases s.len(),
{
    if s.len() != 0 {
        lemma_absent_postings_empty(s.drop_first(), k);
    }
}

/// Replacing the first entry of key `k0` with another entry of the same key
/// rewrites that key's postings and touches nothing else.
proof fn lemma_postings_update<T: IndexKey>(s: Seq<ValueEntry<T>>, i: int, e: ValueEntry<T>)
    requires
        0 <= i < s.len(),
        forall|j: int| 0 <= j < i ==> s[j].value.key() != s[i].value.key(),
        e.value.key() == s[i].value.key(),
    ensures
        postings_in(s.update(i, e), s[i].value.key()) == e.postings@,
        forall|k: T::K|
            k != s[i].value.key() ==> postings_in(s.update(i, e), k) == postings_in(s, k),
        forall|k: T::K| has_key_in(s.update(i, e), k) == has_key_in(s, k),
    decreases i,
{
    let k0 = s[i].value.key();
    let t = s.update(i, e);
    if i == 0 {
        assert(t[0] == e);
        assert(t.drop_first() =~= s.drop_first());
        assert forall|k: T::K| k != k0 implies #[trigger] postings_in(t, k) == postings_in(
            s,
            k,
        ) by {
            assert(postings_in(t, k) == postings_in(t.drop_first(), k));
            assert(postings_in(s, k) == postings_in(s.drop_first(), k));
        }
        assert forall|k: T::K| #[trigger] has_key_in(t, k) == has_key_in(s, k) by {
            assert(has_key_in(t, k) == (e.value.key() == k || has_key_in(t.drop_first(), k)));
            assert(has_key_in(s, k) == (s[0].value.key() == k || has_key_in(s.drop_first(), k)));
        }
    } else {
        assert(s.drop_first()[i - 1] == s[i]);
        assert forall|j: int| 0 <= j < i - 1 implies (#[trigger] s.drop_first()[j]).value.key()
            != s.drop_first()[i - 1].value.key() by {
            assert(s.drop_first()[j] == s[j + 1]);
        }
        lemma_postings_update(s.drop_first(), i - 1, e);
        assert(t[0] == s[0]);
        assert(t.drop_first() =~= s.drop_first().update(i - 1, e));
        assert(s[0].value.key() != k0);
        assert(postings_in(t, k0) == postings_in(t.drop_first(), k0));
        assert forall|k: T::K| k != k0 implies #[trigger] postings_in(t, k) == postings_in(
            s,
            k,
        ) by {
            if s[0].value.key() == k {
                assert(postings_in(t, k) == t[0].postings@);
                assert(postings_in(s, k) == s[0].postings@);
            } else {
                assert(postings_in(t, k) == postings_in(t.drop_first(), k));
                assert(postings_in(s, k) == postings_in(s.drop_first(), k));
            }
        }
        assert forall|k: T::K| #[trigger] has_key_in(t, k) == has_key_in(s, k) by {
            assert(has_key_in(t, k) == (t[0].value.key() == k || has_key_in(t.drop_first(), k)));
            assert(has_key_in(s, k) == (s[0].value.key() == k || has_key_in(s.drop_first(), k)));
        }
    }
}

/// Appending an entry adds its key and leaves every other key's postings as
/// they were; a previously absent key now has exactly the new postings.
proof fn lemma_postings_push<T: IndexKey>(s: Seq<ValueEntry<T>>, e: ValueEntry<T>)
    ensures
        forall|k: T::K| k != e.value.key() ==> postings_in(s.push(e), k) == postings_in(s, k),
        forall|k: T::K| has_key_in(s.push(e), k) == (has_key_in(s, k) || k == e.value.key()),
        !has_key_in(s, e.value.key()) ==> postings_in(s.push(e), e.value.key()) == e.postings@,
    decreases s.len(),
{
    let t = s.push(e);
    if s.len() == 0 {
        assert(t[0] == e);
        assert(t.drop_first() =~= Seq::<ValueEntry<T>>::empty());
        assert forall|k: T::K| k != e.value.key() implies #[trigger] postings_in(t, k)
            == postings_in(s, k) by {
            assert(postings_in(t, k) == postings_in(t.drop_first(), k));
        }
        assert forall|k: T::K| #[trigger] has_key_in(t, k) == (has_key_in(s, k) || k
            == e.value.key()) by {
            assert(has_key_in(t, k) == (t[0].value.key() == k || has_key_in(t.drop_first(), k)));
        }
    } else {
        lemma_postings_push(s.drop_first(), e);
        assert(t[0] == s[0]);
        assert(t.drop_first() =~= s.drop_first().push(e));
        assert forall|k: T::K| k != e.value.key() implies #[trigger] postings_in(t, k)
            == postings_in(s, k) by {
            if s[0].value.key() == k {
                assert(postings_in(t, k) == t[0].postings@);
            } else {
                assert(postings_in(t, k) == postings_in(t.drop_first(), k));
                assert(postings_in(s, k) == postings_in(s.drop_first(), k));
            }
        }
        assert forall|k: T::K| #[trigger] has_key_in(t, k) == (has_key_in(s, k) || k
            == e.value.key()) by {
            assert(has_key_in(t, k) == (t[0].value.key() == k || has_key_in(t.drop_first(), k)));
            assert(has_key_in(s, k) == (s[0].value.key() == k || has_key_in(s.drop_first(), k)));
        }
        if !has_key_in(s, e.value.key()) {
            assert(s[0].value.key() != e.value.key());
            assert(postings_in(t, e.value.key()) == postings_in(t.drop_first(), e.value.key()));
        }
    }
}

/// Posting lists for the values recorded under one property name.
pub struct ValueMap<T> {
    entries: Vec<ValueEntry<T>>,
}

impl<T: IndexKey> ValueMap<T> {
    /// The posting list recorded for key `k`; empty when `k` is absent.
    pub closed spec fn spec_postings(&self, k: T::K) -> Seq<WordFrequency> {
        postings_in(self.entries@, k)
    }

    /// Whether key `k` has been recorded.
    pub closed spec fn spec_has(&self, k: T::K) -> bool {
        has_key_in(self.entries@, k)
    }

    /// A map with nothing recorded.
    pub fn new() -> (r: Self)
        ensures
            forall|k: T::K| !r.spec_has(k),
            forall|k: T::K| r.spec_postings(k) == Seq::<WordFrequency>::empty(),
    {
        ValueMap { entries: Vec::new() }
    }

    /// Looks up the posting list for `value`; `None` when it was never
    /// recorded (in which case its posting list is empty).
    pub fn get(&self, value: &T) -> (r: Option<&Vec<WordFrequency>>)
        ensures
            match r {
                Some(v) => self.spec_has(value.key()) && v@ == self.spec_postings(value.key()),
                None => !self.spec_has(value.key()) && self.spec_postings(value.key())
                    == Seq::<WordFrequency>::empty(),
            },
    {
        let n = self.entries.len();
        let mut i: usize = 0;
        proof {
            assert(self.entries@.skip(0) =~= self.entries@);
        }
        while i < n
            invariant
                n == self.entries@.len(),
                i <= n,
                postings_in(self.entries@, value.key()) == postings_in(
                    self.entries@.skip(i as int),
                    value.key(),
                ),
                has_key_in(self.entries@, value.key()) == has_key_in(
                    self.entries@.skip(i as int),
                    value.key(),
                ),
            decreases n - i,
        {
            proof {
                assert(self.entries@.skip(i as int)[0] == self.entries@[i as int]);
            }
            if self.entries[i].value.key_eq(value) {
                return Some(&self.entries[i].postings);
            }
            proof {
                assert(self.entries@.skip(i as int).drop_first() =~= self.entries@.skip(
                    i as int + 1,
                ));
            }
            i += 1;
        }
        proof {
            assert(self.entries@.skip(n as int) =~= Seq::<ValueEntry<T>>::empty());
        }
        None
    }

    /// Appends `freq` to the posting list of `value`, creating the entry if
    /// the key is new. No other key's postings change.
    pub fn insert_posting(&mut self, value: T, freq: WordFrequency)
        ensures
            final(self).spec_postings(value.key()) == old(self).spec_postings(
                value.key(),
            ).push(freq),
            forall|k: T::K|
                k != value.key() ==> final(self).spec_postings(k) == old(self).spec_postings(k),
            forall|k: T::K| final(self).spec_has(k) == (old(self).spec_has(k) || k == value.key()),
    {
        let ghost s_old = self.entries@;
        let n = self.entries.len();
        let mut i: usize = 0;
        while i < n
            invariant
                s_old == old(self).entries@,
                self.entries@ == s_old,
                n == s_old.len(),
                i <= n,
                forall|j: int| 0 <= j < i ==> s_old[j].value.key() != value.key(),
            decreases n - i,
        {
            if self.entries[i].value.key_eq(&value) {
                let mut e = self.entries.remove(i);
                e.postings.push(freq);
                self.entries.insert(i, e);
                proof {
                    assert(self.entries@ =~= s_old.update(i as int, e));
                    assert(s_old[i as int].value.key() == value.key());
                    lemma_postings_update(s_old, i as int, e);
                    // the prefix has no match, so the first match defines the view
                    lemma_postings_prefix_skip(s_old, i as int, value.key());
                    assert(s_old.skip(i as int)[0] == s_old[i as int]);
                    assert(has_key_in(s_old.skip(i as int), value.key()));
                    assert(postings_in(s_old.skip(i as int), value.key()) == s_old[i as int].postings@);
                    assert(e.postings@ == s_old[i as int].postings@.push(freq));
                    assert(postings_in(s_old.update(i as int, e), value.key()) == e.postings@);
                    assert forall|k: T::K| k != value.key() implies #[trigger] postings_in(
                        self.entries@,
                        k,
                    ) == postings_in(s_old, k) by {
                        assert(postings_in(s_old.update(i as int, e), k) == postings_in(s_old, k));
                    }
                }
                return ;
            }
            i += 1;
        }
        let mut postings: Vec<WordFrequency> = Vec::new();
        postings.push(freq);
        let e = ValueEntry { value, postings };
        proof {
            if has_key_in(s_old, e.value.key()) {
                lemma_has_key_witness(s_old, e.value.key());
            }
            lemma_postings_push(s_old, e);
            lemma_absent_postings_empty(s_old, e.value.key());
            assert(Seq::<WordFrequency>::empty().push(freq) =~= e.postings@);
        }
        self.entries.push(e);
    }
}

/// A first-match lookup ignores a prefix without the key.
proof fn lemma_postings_prefix_skip<T: IndexKey>(s: Seq<ValueEntry<T>>, i: int, k: T::K)
    requires
        0 <= i <= s.len(),
        forall|j: int| 0 <= j < i ==> s[j].value.key() != k,
    ensures
        postings_in(s, k) == postings_in(s.skip(i), k),
        has_key_in(s, k) == has_key_in(s.skip(i), k),
    decreases i,
{
    if i > 0 {
        assert forall|j: int| 0 <= j < i - 1 implies (#[trigger] s.drop_first()[j]).value.key()
            != k by {
            assert(s.drop_first()[j] == s[j + 1]);
        }
        lemma_postings_prefix_skip(s.drop_first(), i - 1, k);
        assert(s.drop_first().skip(i - 1) =~= s.skip(i));
    } else {
        assert(s.skip(0) =~= s);
    }
}

/// One property name and the posting lists of its values.
pub struct PropertyEntry<T> {
    pub name: PropertyName,
    pub values: ValueMap<T>,
}

/// The posting list recorded under property `name` and key `k`; the first
/// entry matching `name` counts, and an absent name has empty lists.
pub open spec fn prop_postings_in<T: IndexKey>(
    s: Seq<PropertyEntry<T>>,
    name: Seq<char>,
    k: T::K,
) -> Seq<WordFrequency>
    decreases s.len(),
{
    if s.len() == 0 {
        Seq::empty()
    } else if s[0].name@ == name {
        s[0].values.spec_postings(k)
    } else {
        prop_postings_in(s.drop_first(), name, k)
    }
}

/// Whether some entry carries property `name`.
pub open spec fn has_name_in<T: IndexKey>(s: Seq<PropertyEntry<T>>, name: Seq<char>) -> bool
    decreases s.len(),
{
    if s.len() == 0 {
        false
    } else {
        s[0].name@ == name || has_name_in(s.drop_first(), name)
    }
}

/// An absent property name has empty posting lists throughout.
proof fn lemma_absent_name_empty<T: IndexKey>(s: Seq<PropertyEntry<T>>, name: Seq<char>, k: T::K)
    requires
        !has_name_in(s, name),
    ensures
        prop_postings_in(s, name, k) == Seq::<WordFrequency>::empty(),
    decreases s.len(),
{
    if s.len() != 0 {
        lemma_absent_name_empty(s.drop_first(), name, k);
    }
}

/// A first-match lookup ignores a prefix without the name.
proof fn lemma_prop_prefix_skip<T: IndexKey>(s: Seq<PropertyEntry<T>>, i: int, name: Seq<char>)
    requires
        0 <= i <= s.len(),
        forall|j: int| 0 <= j < i ==> s[j].name@ != name,
    ensures
        forall|k: T::K| prop_postings_in(s, name, k) == prop_postings_in(s.skip(i), name, k),
        has_name_in(s, name) == has_name_in(s.skip(i), name),
    decreases i,
{
    if i > 0 {
        assert forall|j: int| 0 <= j < i - 1 implies (#[trigger] s.drop_first()[j]).name@
            != name by {
            assert(s.drop_first()[j] == s[j + 1]);
        }
        lemma_prop_prefix_skip(s.drop_first(), i - 1, name);
        assert(s.drop_first().skip(i - 1) =~= s.skip(i));
        assert(s[0].name@ != name);
        assert forall|k: T::K| #[trigger] prop_postings_in(s, name, k) == prop_postings_in(
            s.skip(i),
            name,
            k,
        ) by {
            assert(prop_postings_in(s, name, k) == prop_postings_in(s.drop_first(), name, k));
        }
    } else {
        assert(s.skip(0) =~= s);
    }
}

/// Replacing the first entry of `name0` with another entry of the same name
/// rewrites that name's posting lists and touches nothing else.
proof fn lemma_prop_update<T: IndexKey>(s: Seq<PropertyEntry<T>>, i: int, e: PropertyEntry<T>)
    requires
        0 <= i < s.len(),
        forall|j: int| 0 <= j < i ==> s[j].name@ != s[i].name@,
        e.name@ == s[i].name@,
    ensures
        forall|k: T::K| prop_postings_in(s.update(i, e), s[i].name@, k) == e.values.spec_postings(
            k,
        ),
        forall|n2: Seq<char>, k: T::K|
            n2 != s[i].name@ ==> prop_postings_in(s.update(i, e), n2, k) == prop_postings_in(
                s,
                n2,
                k,
            ),
        forall|n2: Seq<char>| has_name_in(s.update(i, e), n2) == has_name_in(s, n2),
    decreases i,
{
    let n0 = s[i].name@;
    let t = s.update(i, e);
    if i == 0 {
        assert(t[0] == e);
        assert(t.drop_first() =~= s.drop_first());
        assert forall|k: T::K| #[trigger] prop_postings_in(t, n0, k) == e.values.spec_postings(
            k,
        ) by {
            assert(prop_postings_in(t, n0, k) == t[0].values.spec_postings(k));
        }
        assert forall|n2: Seq<char>, k: T::K| n2 != n0 implies #[trigger] prop_postings_in(
            t,
            n2,
            k,
        ) == prop_postings_in(s, n2, k) by {
            assert(prop_postings_in(t, n2, k) == prop_postings_in(t.drop_first(), n2, k));
            assert(prop_postings_in(s, n2, k) == prop_postings_in(s.drop_first(), n2, k));
        }
        assert forall|n2: Seq<char>| #[trigger] has_name_in(t, n2) == has_name_in(s, n2) by {
            assert(has_name_in(t, n2) == (t[0].name@ == n2 || has_name_in(t.drop_first(), n2)));
            assert(has_name_in(s, n2) == (s[0].name@ == n2 || has_name_in(s.drop_first(), n2)));
        }
    } else {
        assert(s.drop_first()[i - 1] == s[i]);
        assert forall|j: int| 0 <= j < i - 1 implies (#[trigger] s.drop_first()[j]).name@
            != s.drop_first()[i - 1].name@ by {
            assert(s.drop_first()[j] == s[j + 1]);
        }
        lemma_prop_update(s.drop_first(), i - 1, e);
        assert(t[0] == s[0]);
        assert(t.drop_first() =~= s.drop_first().update(i - 1, e));
        assert(s[0].name@ != n0);
        assert forall|k: T::K| #[trigger] prop_postings_in(t, n0, k) == e.values.spec_postings(
            k,
        ) by {
            assert(prop_postings_in(t, n0, k) == prop_postings_in(t.drop_first(), n0, k));
        }
        assert forall|n2: Seq<char>, k: T::K| n2 != n0 implies #[trigger] prop_postings_in(
            t,
            n2,
            k,
        ) == prop_postings_in(s, n2, k) by {
            if s[0].name@ == n2 {
                assert(prop_postings_in(t, n2, k) == t[0].values.spec_postings(k));
                assert(prop_postings_in(s, n2, k) == s[0].values.spec_postings(k));
            } else {
                assert(prop_postings_in(t, n2, k) == prop_postings_in(t.drop_first(), n2, k));
                assert(prop_postings_in(s, n2, k) == prop_postings_in(s.drop_first(), n2, k));
            }
        }
        assert forall|n2: Seq<char>| #[trigger] has_name_in(t, n2) == has_name_in(s, n2) by {
            assert(has_name_in(t, n2) == (t[0].name@ == n2 || has_name_in(t.drop_first(), n2)));
            assert(has_name_in(s, n2) == (s[0].name@ == n2 || has_name_in(s.drop_first(), n2)));
        }
    }
}

/// Appending an entry adds its name and leaves every other name's posting
/// lists as they were; a previously absent name now shows the new entry's.
proof fn lemma_prop_push<T: IndexKey>(s: Seq<PropertyEntry<T>>, e: PropertyEntry<T>)
    ensures
        forall|n2: Seq<char>, k: T::K|
            n2 != e.name@ ==> prop_postings_in(s.push(e), n2, k) == prop_postings_in(s, n2, k),
        forall|n2: Seq<char>| has_name_in(s.push(e), n2) == (has_name_in(s, n2) || n2 == e.name@),
        !has_name_in(s, e.name@) ==> forall|k: T::K|
            prop_postings_in(s.push(e), e.name@, k) == e.values.spec_postings(k),
    decreases s.len(),
{
    let t = s.push(e);
    if s.len() == 0 {
        assert(t[0] == e);
        assert(t.drop_first() =~= Seq::<PropertyEntry<T>>::empty());
        assert forall|k: T::K| #[trigger] prop_postings_in(t, e.name@, k)
            == e.values.spec_postings(k) by {
            assert(prop_postings_in(t, e.name@, k) == t[0].values.spec_postings(k));
        }
        assert forall|n2: Seq<char>, k: T::K| n2 != e.name@ implies #[trigger] prop_postings_in(
            t,
            n2,
            k,
        ) == prop_postings_in(s, n2, k) by {
            assert(prop_postings_in(t, n2, k) == prop_postings_in(t.drop_first(), n2, k));
        }
        assert forall|n2: Seq<char>| #[trigger] has_name_in(t, n2) == (has_name_in(s, n2) || n2
            == e.name@) by {
            assert(has_name_in(t, n2) == (t[0].name@ == n2 || has_name_in(t.drop_first(), n2)));
        }
    } else {
        lemma_prop_push(s.drop_first(), e);
        assert(t[0] == s[0]);
        assert(t.drop_first() =~= s.drop_first().push(e));
        assert forall|n2: Seq<char>, k: T::K| n2 != e.name@ implies #[trigger] prop_postings_in(
            t,
            n2,
            k,
        ) == prop_postings_in(s, n2, k) by {
            if s[0].name@ == n2 {
                assert(prop_postings_in(t, n2, k) == t[0].values.spec_postings(k));
            } else {
                assert(prop_postings_in(t, n2, k) == prop_postings_in(t.drop_first(), n2, k));
                assert(prop_postings_in(s, n2, k) == prop_postings_in(s.drop_first(), n2, k));
            }
        }
        assert forall|n2: Seq<char>| #[trigger] has_name_in(t, n2) == (has_name_in(s, n2) || n2
            == e.name@) by {
            assert(has_name_in(t, n2) == (t[0].name@ == n2 || has_name_in(t.drop_first(), n2)));
            assert(has_name_in(s, n2) == (s[0].name@ == n2 || has_name_in(s.drop_first(), n2)));
        }
        if !has_name_in(s, e.name@) {
            assert(s[0].name@ != e.name@);
            assert forall|k: T::K| #[trigger] prop_postings_in(t, e.name@, k)
                == e.values.spec_postings(k) by {
                assert(prop_postings_in(t, e.name@, k) == prop_postings_in(
                    t.drop_first(),
                    e.name@,
                    k,
                ));
            }
        }
    }
}

/// If a property name is present, some index carries it.
proof fn lemma_has_name_witness<T: IndexKey>(s: Seq<PropertyEntry<T>>, name: Seq<char>)
    requires
        has_name_in(s, name),
    ensures
        exists|j: int| 0 <= j < s.len() && s[j].name@ == name,
    decreases s.len(),
{
    if s[0].name@ == name {
    } else {
        lemma_has_name_witness(s.drop_first(), name);
        let j = choose|j: int| 0 <= j < s.drop_first().len() && s.drop_first()[j].name@ == name;
        assert(s[j + 1].name@ == name);
    }
}

/// Posting-list store keyed by property name and typed value.
pub struct PropertyMap<T> {
    entries: Vec<PropertyEntry<T>>,
}

impl<T: IndexKey> PropertyMap<T> {
    /// The posting list recorded under property `name` and key `k`; empty
    /// when either is absent.
    pub closed spec fn spec_postings(&self, name: Seq<char>, k: T::K) -> Seq<WordFrequency> {
        prop_postings_in(self.entries@, name, k)
    }

    /// Whether anything was ever inserted under property `name`.
    pub closed spec fn spec_has(&self, name: Seq<char>) -> bool {
        has_name_in(self.entries@, name)
    }

    /// A store with nothing recorded.
    pub fn new() -> (r: Self)
        ensures
            forall|name: Seq<char>| !r.spec_has(name),
            forall|name: Seq<char>, k: T::K|
                r.spec_postings(name, k) == Seq::<WordFrequency>::empty(),
    {
        PropertyMap { entries: Vec::new() }
    }

    /// Looks up the value-to-postings map recorded under `key`; `None` when
    /// the property name was never inserted (a recoverable outcome, since
    /// queries routinely name properties absent from a corpus).
    pub fn get_map(&self, key: &str) -> (r: Option<&ValueMap<T>>)
        ensures
            match r {
                Some(vm) => self.spec_has(key@) && forall|k: T::K|
                    vm.spec_postings(k) == self.spec_postings(key@, k),
                None => !self.spec_has(key@) && forall|k: T::K|
                    self.spec_postings(key@, k) == Seq::<WordFrequency>::empty(),
            },
    {
        let n = self.entries.len();
        let mut i: usize = 0;
        while i < n
            invariant
                n == self.entries@.len(),
                i <= n,
                forall|j: int| 0 <= j < i ==> self.entries@[j].name@ != key@,
            decreases n - i,
        {
            if str_eq(self.entries[i].name.as_str(), key) {
                proof {
                    lemma_prop_prefix_skip::<T>(self.entries@, i as int, key@);
                    assert(self.entries@.skip(i as int)[0] == self.entries@[i as int]);
                }
                return Some(&self.entries[i].values);
            }
            i += 1;
        }
        proof {
            if has_name_in(self.entries@, key@) {
                lemma_has_name_witness(self.entries@, key@);
            }
            assert forall|k: T::K| self.spec_postings(key@, k) == Seq::<WordFrequency>::empty() by {
                lemma_absent_name_empty(self.entries@, key@, k);
            }
        }
        None
    }

    /// Appends `freq` to the posting list of (`property`, `data`), creating
    /// the nested entries if absent. No other (name, key) postings change.
    pub fn insert_data(&mut self, property: &str, data: T, freq: WordFrequency)
        ensures
            final(self).spec_postings(property@, data.key()) == old(self).spec_postings(
                property@,
                data.key(),
            ).push(freq),
            forall|n2: Seq<char>, k: T::K|
                !(n2 == property@ && k == data.key()) ==> final(self).spec_postings(n2, k) == old(
                    self,
                ).spec_postings(n2, k),
            forall|n2: Seq<char>| final(self).spec_has(n2) == (old(self).spec_has(n2) || n2
                == property@),
    {
        let ghost s_old = self.entries@;
        let n = self.entries.len();
        let mut i: usize = 0;
        while i < n
            invariant
                s_old == old(self).entries@,
                self.entries@ == s_old,
                n == s_old.len(),
                i <= n,
                forall|j: int| 0 <= j < i ==> s_old[j].name@ != property@,
            decreases n - i,
        {
            if str_eq(self.entries[i].name.as_str(), property) {
                let mut e = self.entries.remove(i);
                e.values.insert_posting(data, freq);
                self.entries.insert(i, e);
                proof {
                    assert(self.entries@ =~= s_old.update(i as int, e));
                    assert(e.name@ == s_old[i as int].name@);
                    lemma_prop_update(s_old, i as int, e);
                    lemma_prop_prefix_skip::<T>(s_old, i as int, property@);
                    assert(s_old.skip(i as int)[0] == s_old[i as int]);
                    assert(has_name_in(s_old.skip(i as int), property@));
                    assert forall|k: T::K| #[trigger] prop_postings_in(s_old, property@, k)
                        == s_old[i as int].values.spec_postings(k) by {
                        assert(prop_postings_in(s_old.skip(i as int), property@, k) == s_old[
                            i as int
                        ].values.spec_postings(k));
                    }
                    assert(prop_postings_in(self.entries@, property@, data.key())
                        == e.values.spec_postings(data.key()));
                    assert(e.values.spec_postings(data.key()) == s_old[
                        i as int
                    ].values.spec_postings(data.key()).push(freq));
                    assert forall|n2: Seq<char>, k: T::K| !(n2 == property@ && k == data.key())
                        implies #[trigger] prop_postings_in(self.entries@, n2, k)
                        == prop_postings_in(s_old, n2, k) by {
                        if n2 == property@ {
                            assert(prop_postings_in(self.entries@, n2, k)
                                == e.values.spec_postings(k));
                            assert(e.values.spec_postings(k) == s_old[
                                i as int
                            ].values.spec_postings(k));
                        } else {
                            assert(prop_postings_in(s_old.update(i as int, e), n2, k)
                                == prop_postings_in(s_old, n2, k));
                        }
                    }
                }
                return ;
            }
            i += 1;
        }
        let mut values: ValueMap<T> = ValueMap::new();
        let ghost k0 = data.key();
        values.insert_posting(data, freq);
        let name: PropertyName = property.to_owned();
        let e = PropertyEntry { name, values };
        proof {
            if has_name_in(s_old, property@) {
                lemma_has_name_witness(s_old, property@);
            }
            lemma_prop_push(s_old, e);
            assert forall|k: T::K| #[trigger] prop_postings_in(s_old, property@, k)
                == Seq::<WordFrequency>::empty() by {
                lemma_absent_name_empty(s_old, property@, k);
            }
            assert(Seq::<WordFrequency>::empty().push(freq) =~= e.values.spec_postings(k0));
            assert forall|n2: Seq<char>, k: T::K| !(n2 == property@ && k == k0)
                implies #[trigger] prop_postings_in(s_old.push(e), n2, k) == prop_postings_in(
                s_old,
                n2,
                k,
            ) by {
                if n2 == property@ {
                    assert(prop_postings_in(s_old.push(e), n2, k) == e.values.spec_postings(k));
                    assert(e.values.spec_postings(k) == Seq::<WordFrequency>::empty());
                }
            }
        }
        self.entries.push(e);
    }
}

/// If a key is present, some index carries it.
proof fn lemma_has_key_witness<T: IndexKey>(s: Seq<ValueEntry<T>>, k: T::K)
    requires
        has_key_in(s, k),
    ensures
        exists|j: int| 0 <= j < s.len() && s[j].value.key() == k,
    decreases s.len(),
{
    if s[0].value.key() == k {
    } else {
        lemma_has_key_witness(s.drop_first(), k);
        let j = choose|j: int| 0 <= j < s.drop_first().len() && s.drop_first()[j].value.key() == k;
        assert(s[j + 1].value.key() == k);
    }
}

} // verus!
