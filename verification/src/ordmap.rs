//! Ordered maps and sets keyed by strings, iterated in key order.
//!
//! Keys are kept strictly increasing in the lexicographic order of their
//! characters, which is the order of the UTF-8 bytes that `String`'s `Ord`
//! compares.
use vstd::prelude::*;
use crate::text::chars_of;

verus! {

/// Strict lexicographic order on character sequences.
pub open spec fn lex_lt(a: Seq<char>, b: Seq<char>) -> bool
    decreases a.len(),
{
    if a.len() == 0 {
        b.len() > 0
    } else if b.len() == 0 {
        false
    } else if a[0] < b[0] {
        true
    } else if a[0] == b[0] {
        lex_lt(a.drop_first(), b.drop_first())
    } else {
        false
    }
}

pub proof fn lemma_lex_irreflexive(a: Seq<char>)
    ensures
        !lex_lt(a, a),
    decreases a.len(),
{
    if a.len() > 0 {
        lemma_lex_irreflexive(a.drop_first());
    }
}

pub proof fn lemma_lex_total(a: Seq<char>, b: Seq<char>)
    ensures
        a == b || lex_lt(a, b) || lex_lt(b, a),
    decreases a.len(),
{
    if a.len() > 0 && b.len() > 0 && a[0] == b[0] {
        lemma_lex_total(a.drop_first(), b.drop_first());
        if a.drop_first() == b.drop_first() {
            assert(a =~= seq![a[0]] + a.drop_first());
            assert(b =~= seq![b[0]] + b.drop_first());
        }
    } else if a.len() == 0 && b.len() == 0 {
        assert(a =~= b);
    }
}

pub proof fn lemma_lex_asym(a: Seq<char>, b: Seq<char>)
    ensures
        !(lex_lt(a, b) && lex_lt(b, a)),
    decreases a.len(),
{
    if a.len() > 0 && b.len() > 0 && a[0] == b[0] {
        lemma_lex_asym(a.drop_first(), b.drop_first());
    }
}

pub proof fn lemma_lex_trans(a: Seq<char>, b: Seq<char>, c: Seq<char>)
    requires
        lex_lt(a, b),
        lex_lt(b, c),
    ensures
        lex_lt(a, c),
    decreases a.len(),
{
    if a.len() > 0 && b.len() > 0 && c.len() > 0 && a[0] == b[0] && b[0] == c[0] {
        lemma_lex_trans(a.drop_first(), b.drop_first(), c.drop_first());
    }
}

/// Executable lexicographic comparison.
pub fn lex_less(a: &[char], b: &[char]) -> (r: bool)
    ensures
        r == lex_lt(a@, b@),
{
    let mut i: usize = 0;
    assert(a@.skip(0) =~= a@);
    assert(b@.skip(0) =~= b@);
    loop
        invariant
            i <= a.len(),
            i <= b.len(),
            lex_lt(a@, b@) == lex_lt(a@.skip(i as int), b@.skip(i as int)),
        decreases a.len() - i,
    {
        if i == a.len() {
            return i < b.len();
        }
        if i == b.len() {
            return false;
        }
        if a[i] < b[i] {
            return true;
        }
        if a[i] != b[i] {
            return false;
        }
        assert(a@.skip(i as int).drop_first() =~= a@.skip(i + 1));
        assert(b@.skip(i as int).drop_first() =~= b@.skip(i + 1));
        i += 1;
    }
}

pub fn str_less(a: &str, b: &str) -> (r: bool)
    ensures
        r == lex_lt(a@, b@),
{
    let av = chars_of(a);
    let bv = chars_of(b);
    lex_less(&av, &bv)
}

pub fn str_eq(a: &str, b: &str) -> (r: bool)
    ensures
        r == (a@ == b@),
{
    let av = chars_of(a);
    let bv = chars_of(b);
    crate::text::chars_eq(&av, &bv)
}

/// Keys strictly increasing.
pub open spec fn sorted_keys<V>(s: Seq<(Seq<char>, V)>) -> bool {
    forall|i: int, j: int| 0 <= i < j < s.len() ==> lex_lt(#[trigger] s[i].0, #[trigger] s[j].0)
}

/// Position of key `k` in the entries, if present.
pub open spec fn key_index<V>(s: Seq<(Seq<char>, V)>, k: Seq<char>) -> Option<int>
    decreases s.len(),
{
    if s.len() == 0 {
        None
    } else if s.last().0 == k {
        Some(s.len() - 1)
    } else {
        key_index(s.drop_last(), k)
    }
}

/// The value stored under `k`, if any.
pub open spec fn lookup<V>(s: Seq<(Seq<char>, V)>, k: Seq<char>) -> Option<V> {
    match key_index(s, k) {
        Some(i) => Some(s[i].1),
        None => None,
    }
}

pub proof fn lemma_key_index<V>(s: Seq<(Seq<char>, V)>, k: Seq<char>)
    ensures
        key_index(s, k) matches Some(i) ==> 0 <= i < s.len() && s[i].0 == k,
        key_index(s, k) is None ==> forall|i: int| 0 <= i < s.len() ==> s[i].0 != k,
    decreases s.len(),
{
    if s.len() > 0 && s.last().0 != k {
        lemma_key_index(s.drop_last(), k);
        if key_index(s, k) is None {
            assert forall|i: int| 0 <= i < s.len() implies s[i].0 != k by {
                if i < s.len() - 1 {
                    assert(s[i] == s.drop_last()[i]);
                }
            }
        }
    }
}

pub proof fn lemma_key_index_unique<V>(s: Seq<(Seq<char>, V)>, k: Seq<char>, i: int)
    requires
        sorted_keys(s),
        0 <= i < s.len(),
        s[i].0 == k,
    ensures
        key_index(s, k) == Some(i),
{
    lemma_key_index(s, k);
    if let Some(j) = key_index(s, k) {
        if j != i {
            if i < j {
                assert(lex_lt(s[i].0, s[j].0));
            } else {
                assert(lex_lt(s[j].0, s[i].0));
            }
            lemma_lex_irreflexive(k);
        }
    }
}

/// A map from strings to values, iterated in key order (what `BTreeMap<String, V>` holds).
pub struct StrMap<V> {
    entries: Vec<(String, V)>,
}

impl<V> StrMap<V> {
    /// Entries in key order, keys as character sequences.
    pub closed spec fn view(&self) -> Seq<(Seq<char>, V)> {
        Seq::new(self.entries@.len(), |i: int| (self.entries@[i].0@, self.entries@[i].1))
    }

    #[verifier::type_invariant]
    closed spec fn inv(self) -> bool {
        sorted_keys(self.view())
    }

    /// The keys are strictly increasing (a fact callers may ask for).
    pub fn check_sorted(&self)
        ensures
            sorted_keys(self.view()),
    {
        proof {
            use_type_invariant(self);
        }
    }

    pub fn new() -> (m: Self)
        ensures
            m.view() == Seq::<(Seq<char>, V)>::empty(),
    {
        let m = StrMap { entries: Vec::new() };
        assert(m.view() =~= Seq::<(Seq<char>, V)>::empty());
        m
    }

    pub fn len(&self) -> (n: usize)
        ensures
            n == self.view().len(),
    {
        self.entries.len()
    }

    pub fn is_empty(&self) -> (b: bool)
        ensures
            b == (self.view().len() == 0),
    {
        self.entries.len() == 0
    }

    pub fn key_at(&self, i: usize) -> (k: &String)
        requires
            i < self.view().len(),
        ensures
            k@ == self.view()[i as int].0,
    {
        &self.entries[i].0
    }

    pub fn value_at(&self, i: usize) -> (v: &V)
        requires
            i < self.view().len(),
        ensures
            *v == self.view()[i as int].1,
    {
        &self.entries[i].1
    }

    /// Position of a key, by linear search.
    pub fn index_of(&self, k: &str) -> (r: Option<usize>)
        ensures
            r matches Some(i) ==> key_index(self.view(), k@) == Some(i as int) && i
                < self.view().len(),
            r is None ==> key_index(self.view(), k@) is None,
    {
        proof {
            use_type_invariant(self);
        }
        let mut i: usize = 0;
        while i < self.entries.len()
            invariant
                i <= self.entries.len(),
                sorted_keys(self.view()),
                forall|j: int| 0 <= j < i ==> self.view()[j].0 != k@,
            decreases self.entries.len() - i,
        {
            if str_eq(self.entries[i].0.as_str(), k) {
                proof {
                    lemma_key_index_unique(self.view(), k@, i as int);
                }
                return Some(i);
            }
            i += 1;
        }
        proof {
            lemma_key_index(self.view(), k@);
            if let Some(j) = key_index(self.view(), k@) {
                assert(self.view()[j].0 == k@);
            }
        }
        None
    }

    pub fn get(&self, k: &str) -> (r: Option<&V>)
        ensures
            r matches Some(v) ==> lookup(self.view(), k@) == Some(*v),
            r is None ==> lookup(self.view(), k@) is None,
    {
        match self.index_of(k) {
            Some(i) => Some(&self.entries[i].1),
            None => None,
        }
    }

    pub fn contains_key(&self, k: &str) -> (b: bool)
        ensures
            b == (lookup(self.view(), k@) is Some),
    {
        self.index_of(k).is_some()
    }

    /// Inserts or replaces the value under `k`, keeping keys sorted.
    pub fn insert(&mut self, k: String, v: V)
        ensures
            sorted_keys(final(self).view()),
            forall|key: Seq<char>|
                #![trigger lookup(final(self).view(), key)]
                lookup(final(self).view(), key) == if key == k@ {
                    Some(v)
                } else {
                    lookup(old(self).view(), key)
                },
            final(self).view().len() == old(self).view().len() + if lookup(
                old(self).view(),
                k@,
            ) is Some {
                0int
            } else {
                1int
            },
    {
        proof {
            use_type_invariant(&*self);
        }
        let ghost old_view = self.view();
        let mut entries: Vec<(String, V)> = Vec::new();
        std::mem::swap(&mut entries, &mut self.entries);
        assert(old_view =~= Seq::new(entries@.len(), |i: int| (entries@[i].0@, entries@[i].1)));
        let kc = chars_of(k.as_str());
        // first position whose key is not below k
        let mut p: usize = 0;
        while p < entries.len() && str_less(entries[p].0.as_str(), k.as_str())
            invariant
                p <= entries.len(),
                old_view == Seq::new(entries@.len(), |i: int| (entries@[i].0@, entries@[i].1)),
                forall|j: int| 0 <= j < p ==> lex_lt(#[trigger] old_view[j].0, k@),
            decreases entries.len() - p,
        {
            p += 1;
        }
        proof {
            lemma_key_index(old_view, k@);
        }
        if p < entries.len() && str_eq(entries[p].0.as_str(), k.as_str()) {
            let ghost kk = k@;
            entries.set(p, (k, v));
            let ghost nv = Seq::new(entries@.len(), |i: int| (entries@[i].0@, entries@[i].1));
            assert(nv =~= old_view.update(p as int, (kk, v)));
            assert(sorted_keys(nv)) by {
                assert forall|i: int, j: int| 0 <= i < j < nv.len() implies lex_lt(
                    #[trigger] nv[i].0,
                    #[trigger] nv[j].0,
                ) by {
                    assert(nv[i].0 == old_view[i].0);
                    assert(nv[j].0 == old_view[j].0);
                }
            }
            proof {
                lemma_key_index_unique(old_view, kk, p as int);
                assert forall|key: Seq<char>| #[trigger]
                    lookup(nv, key) == if key == kk {
                        Some(v)
                    } else {
                        lookup(old_view, key)
                    } by {
                    lemma_key_index(old_view, key);
                    lemma_key_index(nv, key);
                    if key == kk {
                        lemma_key_index_unique(nv, kk, p as int);
                    } else {
                        if let Some(j) = key_index(old_view, key) {
                            lemma_key_index_unique(nv, key, j);
                        } else {
                            if let Some(j) = key_index(nv, key) {
                                assert(nv[j].0 == old_view[j].0);
                            }
                        }
                    }
                }
            }
            self.entries = entries;
            assert(self.view() =~= nv);
        } else {
            let ghost kk = k@;
            proof {
                if p < old_view.len() {
                    lemma_lex_total(old_view[p as int].0, kk);
                }
            }
            entries.insert(p, (k, v));
            let ghost nv = Seq::new(entries@.len(), |i: int| (entries@[i].0@, entries@[i].1));
            assert(nv =~= old_view.insert(p as int, (kk, v)));
            assert(sorted_keys(nv)) by {
                assert forall|i: int, j: int| 0 <= i < j < nv.len() implies lex_lt(
                    #[trigger] nv[i].0,
                    #[trigger] nv[j].0,
                ) by {
                    if j < p {
                        assert(nv[i] == old_view[i] && nv[j] == old_view[j]);
                    } else if j == p {
                        assert(nv[i] == old_view[i]);
                    } else if i == p {
                        assert(nv[j] == old_view[j - 1]);
                        if j - 1 > p {
                            assert(lex_lt(old_view[p as int].0, old_view[j - 1].0));
                            lemma_lex_trans(kk, old_view[p as int].0, old_view[j - 1].0);
                        }
                    } else if i < p {
                        assert(nv[i] == old_view[i] && nv[j] == old_view[j - 1]);
                    } else {
                        assert(nv[i] == old_view[i - 1] && nv[j] == old_view[j - 1]);
                    }
                }
            }
            proof {
                assert(lookup(old_view, kk) is None) by {
                    if let Some(j) = key_index(old_view, kk) {
                        if j < p {
                            assert(lex_lt(old_view[j].0, kk));
                            lemma_lex_irreflexive(kk);
                        } else if j > p {
                            assert(lex_lt(old_view[p as int].0, old_view[j].0));
                            lemma_lex_asym(kk, old_view[p as int].0);
                        }
                    }
                }
                assert forall|key: Seq<char>| #[trigger]
                    lookup(nv, key) == if key == kk {
                        Some(v)
                    } else {
                        lookup(old_view, key)
                    } by {
                    lemma_key_index(old_view, key);
                    lemma_key_index(nv, key);
                    if key == kk {
                        lemma_key_index_unique(nv, kk, p as int);
                    } else {
                        if let Some(j) = key_index(old_view, key) {
                            if j < p {
                                lemma_key_index_unique(nv, key, j);
                            } else {
                                assert(nv[j + 1] == old_view[j]);
                                lemma_key_index_unique(nv, key, j + 1);
                            }
                        } else {
                            if let Some(j) = key_index(nv, key) {
                                if j < p {
                                    assert(nv[j] == old_view[j]);
                                } else if j > p {
                                    assert(nv[j] == old_view[j - 1]);
                                }
                            }
                        }
                    }
                }
            }
            self.entries = entries;
            assert(self.view() =~= nv);
        }
    }
}

impl<V> StrMap<V> {
    /// Appends an entry whose key is above every key already present.
    pub fn push_back(&mut self, k: String, v: V)
        requires
            forall|i: int| 0 <= i < old(self).view().len() ==> lex_lt(#[trigger] old(self).view()[i].0, k@),
        ensures
            final(self).view() == old(self).view().push((k@, v)),
    {
        proof {
            use_type_invariant(&*self);
        }
        let ghost old_view = self.view();
        let ghost kk = k@;
        let mut entries: Vec<(String, V)> = Vec::new();
        std::mem::swap(&mut entries, &mut self.entries);
        assert(old_view =~= Seq::new(entries@.len(), |i: int| (entries@[i].0@, entries@[i].1)));
        entries.push((k, v));
        let ghost nv = Seq::new(entries@.len(), |i: int| (entries@[i].0@, entries@[i].1));
        assert(nv =~= old_view.push((kk, v)));
        assert(sorted_keys(nv)) by {
            assert forall|i: int, j: int| 0 <= i < j < nv.len() implies lex_lt(
                #[trigger] nv[i].0,
                #[trigger] nv[j].0,
            ) by {
                assert(nv[i] == old_view[i]);
                if j < old_view.len() {
                    assert(nv[j] == old_view[j]);
                }
            }
        }
        self.entries = entries;
        assert(self.view() =~= nv);
    }
}

/// A key is present exactly when lookup finds it.
pub proof fn lemma_keys_contains<V>(s: Seq<(Seq<char>, V)>, k: Seq<char>)
    ensures
        keys_of(s).contains(k) == (lookup(s, k) is Some),
{
    lemma_key_index(s, k);
    if keys_of(s).contains(k) {
        let j = choose|j: int| 0 <= j < keys_of(s).len() && keys_of(s)[j] == k;
        assert(s[j].0 == k);
    }
    if let Some(i) = key_index(s, k) {
        assert(keys_of(s)[i] == k);
    }
}

impl<V> StrMap<V> {
    /// Replaces the value at position `i`, keeping its key.
    pub fn set_value(&mut self, i: usize, v: V)
        requires
            i < old(self).view().len(),
        ensures
            final(self).view() == old(self).view().update(i as int, (old(self).view()[i as int].0, v)),
    {
        proof {
            use_type_invariant(&*self);
        }
        let ghost old_view = self.view();
        let mut entries: Vec<(String, V)> = Vec::new();
        std::mem::swap(&mut entries, &mut self.entries);
        assert(old_view =~= Seq::new(entries@.len(), |j: int| (entries@[j].0@, entries@[j].1)));
        let mut e = entries.remove(i);
        e.1 = v;
        entries.insert(i, e);
        let ghost nv = Seq::new(entries@.len(), |j: int| (entries@[j].0@, entries@[j].1));
        assert(nv =~= old_view.update(i as int, (old_view[i as int].0, v)));
        assert(sorted_keys(nv)) by {
            assert forall|a: int, b: int| 0 <= a < b < nv.len() implies lex_lt(
                #[trigger] nv[a].0,
                #[trigger] nv[b].0,
            ) by {
                assert(nv[a].0 == old_view[a].0);
                assert(nv[b].0 == old_view[b].0);
            }
        }
        self.entries = entries;
        assert(self.view() =~= nv);
    }
}

impl StrMap<()> {
    /// Keys in order.
    pub open spec fn keys(&self) -> Seq<Seq<char>> {
        self.view().map_values(|e: (Seq<char>, ())| e.0)
    }
}

/// The keys of entries, in order.
pub open spec fn keys_of<V>(s: Seq<(Seq<char>, V)>) -> Seq<Seq<char>> {
    s.map_values(|e: (Seq<char>, V)| e.0)
}

impl<V> StrMap<V> {
    /// All keys, in order (`BTreeMap::keys` collected).
    pub fn keys_vec(&self) -> (r: Vec<String>)
        ensures
            r.deep_view() == keys_of(self.view()),
    {
        let mut r: Vec<String> = Vec::new();
        let mut i: usize = 0;
        while i < self.entries.len()
            invariant
                i <= self.entries.len(),
                r.deep_view() == keys_of(self.view()).take(i as int),
            decreases self.entries.len() - i,
        {
            let k = self.entries[i].0.clone();
            let ghost before = r.deep_view();
            r.push(k);
            assert(r.deep_view() =~= before.push(k@));
            assert(keys_of(self.view()).take(i + 1) =~= keys_of(self.view()).take(i as int).push(
                self.view()[i as int].0,
            ));
            i += 1;
        }
        assert(keys_of(self.view()).take(self.entries.len() as int) =~= keys_of(self.view()));
        r
    }
}

impl<V: Clone> Clone for StrMap<V> {
    fn clone(&self) -> (r: Self) {
        proof {
            use_type_invariant(self);
        }
        let mut entries: Vec<(String, V)> = Vec::new();
        let mut i: usize = 0;
        while i < self.entries.len()
            invariant
                i <= self.entries.len(),
                sorted_keys(self.view()),
                entries@.len() == i,
                forall|j: int| 0 <= j < i ==> #[trigger] entries@[j].0@ == self.view()[j].0,
            decreases self.entries.len() - i,
        {
            let k = self.entries[i].0.clone();
            let v = self.entries[i].1.clone();
            let ghost before = entries@;
            entries.push((k, v));
            assert(entries@[i as int].0@ == self.view()[i as int].0);
            assert forall|j: int| 0 <= j < i + 1 implies #[trigger] entries@[j].0@ == self.view()[j].0 by {
                if j < i {
                    assert(entries@[j] == before[j]);
                }
            }
            i += 1;
        }
        let ghost rv = Seq::new(entries@.len(), |i: int| (entries@[i].0@, entries@[i].1));
        assert(sorted_keys(rv)) by {
            assert forall|a: int, b: int| 0 <= a < b < rv.len() implies lex_lt(
                #[trigger] rv[a].0,
                #[trigger] rv[b].0,
            ) by {
                assert(rv[a].0 == self.view()[a].0);
                assert(rv[b].0 == self.view()[b].0);
            }
        }
        let r = StrMap { entries };
        r
    }
}

/// A set of strings, iterated in order (what `BTreeSet<String>` holds).
pub struct StrSet {
    map: StrMap<()>,
}

impl StrSet {
    /// Elements in increasing order.
    pub closed spec fn view(&self) -> Seq<Seq<char>> {
        keys_of(self.map.view())
    }

    /// The elements are strictly increasing (a fact callers may ask for).
    pub fn check_sorted(&self)
        ensures
            forall|i: int, j: int|
                0 <= i < j < self.view().len() ==> lex_lt(#[trigger] self.view()[i], #[trigger] self.view()[j]),
    {
        self.map.check_sorted();
    }

    pub fn new() -> (s: Self)
        ensures
            s.view() == Seq::<Seq<char>>::empty(),
    {
        let s = StrSet { map: StrMap::new() };
        assert(s.view() =~= Seq::<Seq<char>>::empty());
        s
    }

    pub fn len(&self) -> (n: usize)
        ensures
            n == self.view().len(),
    {
        self.map.len()
    }

    pub fn is_empty(&self) -> (b: bool)
        ensures
            b == (self.view().len() == 0),
    {
        self.map.is_empty()
    }

    pub fn at(&self, i: usize) -> (k: &String)
        requires
            i < self.view().len(),
        ensures
            k@ == self.view()[i as int],
    {
        self.map.key_at(i)
    }

    pub fn contains(&self, k: &str) -> (b: bool)
        ensures
            b == self.view().contains(k@),
    {
        let r = self.map.contains_key(k);
        proof {
            lemma_key_index(self.map.view(), k@);
            if self.view().contains(k@) {
                let j = choose|j: int| 0 <= j < self.view().len() && self.view()[j] == k@;
                assert(self.map.view()[j].0 == k@);
            }
            if r {
                let j = key_index(self.map.view(), k@)->0;
                assert(self.view()[j] == k@);
            }
        }
        r
    }

    pub fn insert(&mut self, k: String)
        ensures
            final(self).view().to_set() == old(self).view().to_set().insert(k@),
            final(self).view().len() == old(self).view().len() + if old(self).view().contains(k@) {
                0int
            } else {
                1int
            },
    {
        let ghost kk = k@;
        let ghost before = self.map.view();
        self.map.check_sorted();
        proof {
            lemma_key_index(before, kk);
            if self.view().contains(kk) {
                let j = choose|j: int| 0 <= j < self.view().len() && self.view()[j] == kk;
                assert(before[j].0 == kk);
                lemma_key_index_unique(before, kk, j);
            }
            if lookup(before, kk) is Some {
                let j = key_index(before, kk)->0;
                assert(self.view()[j] == kk);
            }
        }
        self.map.insert(k, ());
        let ghost after = self.map.view();
        self.map.check_sorted();
        proof {
            assert forall|x: Seq<char>|
                self.view().to_set().contains(x) == old(self).view().to_set().insert(kk).contains(
                    x,
                ) by {
                lemma_key_index(after, x);
                lemma_key_index(before, x);
                assert(lookup(after, x) == if x == kk {
                    Some(())
                } else {
                    lookup(before, x)
                });
                if self.view().contains(x) {
                    let j = choose|j: int| 0 <= j < self.view().len() && self.view()[j] == x;
                    assert(after[j].0 == x);
                    lemma_key_index_unique(after, x, j);
                    if x != kk {
                        let i = key_index(before, x)->0;
                        assert(old(self).view()[i] == x);
                    }
                }
                if old(self).view().contains(x) {
                    let j = choose|j: int| 0 <= j < old(self).view().len() && old(self).view()[j] == x;
                    assert(before[j].0 == x);
                    lemma_key_index_unique(before, x, j);
                    let i = key_index(after, x)->0;
                    assert(self.view()[i] == x);
                }
                if x == kk {
                    let i = key_index(after, x)->0;
                    assert(self.view()[i] == x);
                }
            }
            assert(self.view().to_set() =~= old(self).view().to_set().insert(kk));
        }
    }

    /// Elements in order.
    pub fn to_vec(&self) -> (r: Vec<String>)
        ensures
            r.deep_view() == self.view(),
    {
        self.map.keys_vec()
    }
}

impl StrSet {
    /// A copy holding the same elements.
    pub fn duplicate(&self) -> (r: StrSet)
        ensures
            r.view() == self.view(),
    {
        self.map.check_sorted();
        let mut m: StrMap<()> = StrMap::new();
        let mut i: usize = 0;
        while i < self.map.len()
            invariant
                i <= self.view().len(),
                sorted_keys(self.map.view()),
                m.view() == self.map.view().take(i as int),
            decreases self.view().len() - i,
        {
            let k = self.map.key_at(i).clone();
            proof {
                assert forall|j: int| 0 <= j < m.view().len() implies lex_lt(#[trigger] m.view()[j].0, k@) by {
                    assert(m.view()[j] == self.map.view()[j]);
                }
            }
            m.push_back(k, ());
            assert(m.view() =~= self.map.view().take(i + 1));
            i += 1;
        }
        assert(self.map.view().take(self.map.view().len() as int) =~= self.map.view());
        StrSet { map: m }
    }
}

impl Clone for StrSet {
    fn clone(&self) -> (r: Self) {
        StrSet { map: self.map.clone() }
    }
}

} // verus!
