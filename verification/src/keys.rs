//! Values ordered by a string key: stable sorting, and a sorted set of keys.
use crate::text::{
    chars_eq, chars_lt, lemma_lex_asymmetric, lemma_lex_irreflexive, lemma_lex_total,
    lemma_lex_transitive, lex_le, lex_lt, str_chars,
};
use vstd::prelude::*;

verus! {

broadcast use vstd::seq_lib::group_to_multiset_ensures;

/// Values that carry a string key.
pub trait Keyed {
    /// The key, as characters.
    spec fn key_of(&self) -> Seq<char>;

    /// The characters of the key.
    fn key_chars(&self) -> (r: Vec<char>)
        ensures
            r@ == self.key_of(),
    ;
}

impl Keyed for String {
    open spec fn key_of(&self) -> Seq<char> {
        self@
    }

    fn key_chars(&self) -> (r: Vec<char>) {
        str_chars(self.as_str())
    }
}

/// The characters of each string.
pub open spec fn string_views(s: Seq<String>) -> Seq<Seq<char>> {
    s.map_values(|x: String| x@)
}

/// Keys never decrease along `s`.
pub open spec fn sorted_by_key<T: Keyed>(s: Seq<T>) -> bool {
    forall|i: int, j: int| 0 <= i < j < s.len() ==> lex_le(s[i].key_of(), s[j].key_of())
}

/// Keys strictly increase along `s`: sorted, and no key occurs twice.
pub open spec fn strictly_sorted_by_key<T: Keyed>(s: Seq<T>) -> bool {
    forall|i: int, j: int| 0 <= i < j < s.len() ==> lex_lt(s[i].key_of(), s[j].key_of())
}

/// Strictly increasing character sequences.
pub open spec fn strictly_sorted(s: Seq<Seq<char>>) -> bool {
    forall|i: int, j: int| 0 <= i < j < s.len() ==> lex_lt(s[i], s[j])
}

/// Non-strict order is transitive.
pub proof fn lemma_lex_le_transitive(a: Seq<char>, b: Seq<char>, c: Seq<char>)
    ensures
        lex_le(a, b) && lex_le(b, c) ==> lex_le(a, c),
        lex_le(a, b) && lex_lt(b, c) ==> lex_lt(a, c),
        lex_lt(a, b) && lex_le(b, c) ==> lex_lt(a, c),
{
    lemma_lex_transitive(a, b, c);
}

/// Where `x` goes in sorted `r` to keep it sorted: after every key smaller than `x`'s.
fn insertion_point<T: Keyed>(r: &Vec<T>, x: &T) -> (p: usize)
    requires
        sorted_by_key(r@),
    ensures
        p <= r@.len(),
        forall|k: int| 0 <= k < p ==> lex_lt(r@[k].key_of(), x.key_of()),
        forall|k: int| p <= k < r@.len() ==> lex_le(x.key_of(), r@[k].key_of()),
{
    let xk = x.key_chars();
    let mut p: usize = 0;
    while p < r.len()
        invariant
            p <= r@.len(),
            sorted_by_key(r@),
            xk@ == x.key_of(),
            forall|k: int| 0 <= k < p ==> lex_lt(r@[k].key_of(), x.key_of()),
        decreases r.len() - p,
    {
        let rk = r[p].key_chars();
        if !chars_lt(&rk, &xk) {
            proof {
                lemma_lex_total(x.key_of(), r@[p as int].key_of());
                assert(lex_le(x.key_of(), r@[p as int].key_of()));
                assert forall|k: int| p <= k < r@.len() implies lex_le(
                    x.key_of(),
                    r@[k].key_of(),
                ) by {
                    if k > p {
                        assert(lex_le(r@[p as int].key_of(), r@[k].key_of()));
                    }
                    lemma_lex_le_transitive(x.key_of(), r@[p as int].key_of(), r@[k].key_of());
                }
            }
            return p;
        }
        p = p + 1;
    }
    p
}

/// The values of `v` ordered by key; values with equal keys keep their relative order.
pub fn sort_by_key<T: Keyed>(v: Vec<T>) -> (r: Vec<T>)
    ensures
        sorted_by_key(r@),
        r@.to_multiset() =~= v@.to_multiset(),
        forall|k: Seq<char>| #[trigger] with_key(r@, k) == with_key(v@, k),
{
    let ghost orig = v@;
    let mut v = v;
    let mut r: Vec<T> = Vec::new();
    proof {
        assert forall|k: Seq<char>| #[trigger] with_key(r@, k) == with_key(
            orig.subrange(v@.len() as int, orig.len() as int),
            k,
        ) by {
            assert(r@ =~= Seq::<T>::empty());
            assert(orig.subrange(v@.len() as int, orig.len() as int) =~= Seq::<T>::empty());
        }
    }
    while v.len() > 0
        invariant
            sorted_by_key(r@),
            v@.to_multiset().add(r@.to_multiset()) =~= orig.to_multiset(),
            v@.len() <= orig.len(),
            v@ == orig.take(v@.len() as int),
            forall|k: Seq<char>| #[trigger] with_key(r@, k) == with_key(
                orig.subrange(v@.len() as int, orig.len() as int),
                k,
            ),
        decreases v.len(),
    {
        let ghost vold = v@;
        let ghost rold = r@;
        let x = v.pop().unwrap();
        proof {
            assert(vold =~= v@.push(x));
        }
        let p = insertion_point(&r, &x);
        let ghost xkey = x.key_of();
        r.insert(p, x);
        proof {
            assert(r@ =~= rold.insert(p as int, x));
            let n = vold.len() as int;
            assert(v@ =~= orig.take(n - 1));
            assert(x == orig[n - 1]);
            lemma_with_key_insert(rold, p as int, x);
            assert(orig.subrange(n - 1, orig.len() as int) =~= seq![x] + orig.subrange(n, orig.len() as int));
            assert forall|k: Seq<char>| #[trigger] with_key(r@, k) == with_key(
                orig.subrange(n - 1, orig.len() as int),
                k,
            ) by {
                Seq::filter_distributes_over_add(
                    seq![x],
                    orig.subrange(n, orig.len() as int),
                    key_is::<T>(k),
                );
                lemma_with_key_single(x, k);
                assert(with_key(rold, k) == with_key(orig.subrange(n, orig.len() as int), k));
            }
            assert forall|i: int, j: int| 0 <= i < j < r@.len() implies lex_le(
                r@[i].key_of(),
                r@[j].key_of(),
            ) by {
                if j < p {
                } else if i < p && j == p {
                    assert(r@[i] == rold[i]);
                } else if i < p {
                    assert(r@[i] == rold[i]);
                    assert(r@[j] == rold[j - 1]);
                    assert(lex_le(xkey, rold[j - 1].key_of()));
                    lemma_lex_le_transitive(rold[i].key_of(), xkey, rold[j - 1].key_of());
                } else if i == p {
                    assert(r@[j] == rold[j - 1]);
                } else {
                    assert(r@[i] == rold[i - 1]);
                    assert(r@[j] == rold[j - 1]);
                }
            }
            assert(r@.to_multiset() =~= rold.to_multiset().insert(x));
        }
    }
    assert(orig.subrange(0, orig.len() as int) =~= orig);
    r
}

/// Whether a value's key is `k`.
pub open spec fn key_is<T: Keyed>(k: Seq<char>) -> spec_fn(T) -> bool {
    |t: T| t.key_of() == k
}

/// The values of `s` whose key is `k`, in order.
pub open spec fn with_key<T: Keyed>(s: Seq<T>, k: Seq<char>) -> Seq<T> {
    s.filter(key_is::<T>(k))
}

proof fn lemma_with_key_single<T: Keyed>(x: T, k: Seq<char>)
    ensures
        with_key(seq![x], k) == if x.key_of() == k {
            seq![x]
        } else {
            Seq::<T>::empty()
        },
{
    let pred = key_is::<T>(k);
    reveal(Seq::filter);
    assert(Seq::<T>::empty().filter(pred) =~= Seq::<T>::empty());
    Seq::<T>::empty().lemma_filter_push(x, pred);
    assert(Seq::<T>::empty().push(x) =~= seq![x]);
}

proof fn lemma_with_key_absent<T: Keyed>(s: Seq<T>, k: Seq<char>)
    requires
        forall|i: int| 0 <= i < s.len() ==> s[i].key_of() != k,
    ensures
        with_key(s, k) == Seq::<T>::empty(),
{
    let pred = key_is::<T>(k);
    if s.filter(pred).len() > 0 {
        s.lemma_filter_pred(pred, 0);
        s.lemma_filter_contains_rev(pred, s.filter(pred)[0]);
    }
    assert(s.filter(pred) =~= Seq::<T>::empty());
}

/// Inserting `x` right after every key smaller than its own puts it first among the
/// values with its key and leaves the other keys' values as they were.
proof fn lemma_with_key_insert<T: Keyed>(s: Seq<T>, p: int, x: T)
    requires
        0 <= p <= s.len(),
        forall|i: int| 0 <= i < p ==> lex_lt(s[i].key_of(), x.key_of()),
    ensures
        forall|k: Seq<char>| #[trigger] with_key(s.insert(p, x), k) == with_key(seq![x], k) + with_key(s, k),
{
    assert forall|k: Seq<char>| #[trigger] with_key(s.insert(p, x), k) == with_key(seq![x], k) + with_key(s, k) by {
        let pred = key_is::<T>(k);
        let a = s.take(p);
        let b = s.skip(p);
        assert(s.insert(p, x) =~= a + (seq![x] + b));
        assert(s =~= a + b);
        Seq::filter_distributes_over_add(a, seq![x] + b, pred);
        Seq::filter_distributes_over_add(seq![x], b, pred);
        Seq::filter_distributes_over_add(a, b, pred);
        lemma_with_key_single(x, k);
        if x.key_of() == k {
            assert forall|i: int| 0 <= i < a.len() implies a[i].key_of() != k by {
                assert(a[i] == s[i]);
                lemma_lex_irreflexive(k);
            }
            lemma_with_key_absent(a, k);
            assert(with_key(s.insert(p, x), k) =~= seq![x] + with_key(b, k));
            assert(with_key(s, k) =~= with_key(b, k));
        } else {
            assert(with_key(s.insert(p, x), k) =~= with_key(a, k) + with_key(b, k));
        }
    }
}

/// A set of keys kept in ascending order without repetitions.
#[derive(Debug)]
pub struct KeySet {
    keys: Vec<String>,
}

impl Clone for KeySet {
    /// A copy holding the same keys.
    fn clone(&self) -> (r: Self)
        ensures
            r@ == self@,
    {
        proof {
            use_type_invariant(self);
        }
        let mut keys: Vec<String> = Vec::new();
        let mut i: usize = 0;
        while i < self.keys.len()
            invariant
                i <= self.keys@.len(),
                keys@.len() == i,
                forall|k: int| 0 <= k < i ==> #[trigger] keys@[k]@ == self.keys@[k]@,
            decreases self.keys.len() - i,
        {
            keys.push(self.keys[i].clone());
            i = i + 1;
        }
        assert(keys@.map_values(|s: String| s@) =~= self.keys@.map_values(|s: String| s@));
        KeySet { keys }
    }
}

impl View for KeySet {
    type V = Seq<Seq<char>>;

    closed spec fn view(&self) -> Seq<Seq<char>> {
        self.keys@.map_values(|s: String| s@)
    }
}

impl KeySet {
    #[verifier::type_invariant]
    spec fn ascending(self) -> bool {
        strictly_sorted(self.keys@.map_values(|s: String| s@))
    }

    /// The empty set.
    pub fn new() -> (r: Self)
        ensures
            r@ == Seq::<Seq<char>>::empty(),
    {
        KeySet { keys: Vec::new() }
    }

    /// The set holding the given keys.
    pub fn from_keys(keys: Vec<String>) -> (r: Self)
        ensures
            strictly_sorted(r@),
            r@.to_set() == keys@.map_values(|s: String| s@).to_set(),
    {
        let mut set = KeySet::new();
        let mut i: usize = 0;
        while i < keys.len()
            invariant
                i <= keys.len(),
                strictly_sorted(set@),
                set@.to_set() == keys@.map_values(|s: String| s@).take(i as int).to_set(),
            decreases keys.len() - i,
        {
            set.insert(keys[i].clone());
            proof {
                assert(keys@.map_values(|s: String| s@).take(i + 1) =~= keys@.map_values(
                    |s: String| s@,
                ).take(i as int).push(keys@[i as int]@));
                keys@.map_values(|s: String| s@).take(i as int).lemma_push_to_set_commute(
                    keys@[i as int]@,
                );
            }
            i = i + 1;
        }
        assert(keys@.map_values(|s: String| s@).take(keys.len() as int) =~= keys@.map_values(
            |s: String| s@,
        ));
        set
    }

    /// Where `key` is, or where it would go.
    fn locate(&self, key: &Vec<char>) -> (r: (usize, bool))
        ensures
            strictly_sorted(self@),
            r.0 <= self@.len(),
            forall|k: int| 0 <= k < r.0 ==> lex_lt(self@[k], key@),
            r.1 ==> r.0 < self@.len() && self@[r.0 as int] == key@,
            !r.1 ==> forall|k: int| r.0 <= k < self@.len() ==> lex_lt(key@, self@[k]),
    {
        proof {
            use_type_invariant(self);
        }
        let mut p: usize = 0;
        while p < self.keys.len()
            invariant
                p <= self@.len() == self.keys@.len(),
                strictly_sorted(self@),
                forall|k: int| 0 <= k < p ==> lex_lt(self@[k], key@),
            decreases self.keys.len() - p,
        {
            let c = str_chars(self.keys[p].as_str());
            assert(c@ == self@[p as int]);
            if !chars_lt(&c, key) {
                let found = chars_eq(&c, key);
                proof {
                    lemma_lex_total(key@, c@);
                    if !found {
                        assert forall|k: int| p <= k < self@.len() implies lex_lt(
                            key@,
                            self@[k],
                        ) by {
                            if k > p {
                                lemma_lex_transitive(key@, self@[p as int], self@[k]);
                            }
                        }
                    }
                }
                return (p, found);
            }
            p = p + 1;
        }
        (p, false)
    }

    /// Whether `key` is in the set.
    pub fn contains(&self, key: &String) -> (r: bool)
        ensures
            r == self@.contains(key@),
    {
        let k = str_chars(key.as_str());
        let (p, found) = self.locate(&k);
        proof {
            if !found && self@.contains(key@) {
                let i = choose|i: int| 0 <= i < self@.len() && self@[i] == key@;
                lemma_lex_irreflexive(key@);
            }
        }
        found
    }

    /// Adds `key`; nothing changes when it is already there.
    pub fn insert(&mut self, key: String)
        ensures
            strictly_sorted(final(self)@),
            final(self)@.to_set() == old(self)@.to_set().insert(key@),
            old(self)@.contains(key@) ==> final(self)@ == old(self)@,
            !old(self)@.contains(key@) ==> final(self)@.len() == old(self)@.len() + 1,
    {
        proof {
            use_type_invariant(&*self);
        }
        let k = str_chars(key.as_str());
        let (p, found) = self.locate(&k);
        if found {
            assert(old(self)@.to_set().insert(key@) =~= old(self)@.to_set());
            return ;
        }
        proof {
            if old(self)@.contains(key@) {
                let i = choose|i: int| 0 <= i < old(self)@.len() && old(self)@[i] == key@;
                lemma_lex_irreflexive(key@);
            }
        }
        let ghost before = self.keys@;
        let mut keys: Vec<String> = Vec::new();
        std::mem::swap(&mut keys, &mut self.keys);
        keys.insert(p, key);
        proof {
            let s = keys@.map_values(|s: String| s@);
            let o = before.map_values(|s: String| s@);
            assert(s =~= o.insert(p as int, k@));
            assert forall|i: int, j: int| 0 <= i < j < s.len() implies lex_lt(s[i], s[j]) by {
                if i < p && j > p {
                    lemma_lex_transitive(s[i], k@, s[j]);
                }
            }
            assert(s.to_set() =~= o.to_set().insert(k@)) by {
                assert forall|x: Seq<char>| s.to_set().contains(x) implies o.to_set().insert(
                    k@,
                ).contains(x) by {
                    let i = choose|i: int| 0 <= i < s.len() && s[i] == x;
                    if i < p {
                        assert(o[i] == x);
                    } else if i > p {
                        assert(o[i - 1] == x);
                    }
                }
                assert forall|x: Seq<char>| o.to_set().insert(k@).contains(x) implies s.to_set().contains(x) by {
                    if x == k@ {
                        assert(s[p as int] == x);
                    } else {
                        let i = choose|i: int| 0 <= i < o.len() && o[i] == x;
                        if i < p {
                            assert(s[i] == x);
                        } else {
                            assert(s[i + 1] == x);
                        }
                    }
                }
            }
        }
        self.keys = keys;
    }

    /// Removes `key` if present.
    pub fn remove(&mut self, key: &String)
        ensures
            strictly_sorted(final(self)@),
            final(self)@.to_set() == old(self)@.to_set().remove(key@),
            !old(self)@.contains(key@) ==> final(self)@ == old(self)@,
    {
        proof {
            use_type_invariant(&*self);
        }
        let k = str_chars(key.as_str());
        let (p, found) = self.locate(&k);
        if !found {
            proof {
                if old(self)@.contains(key@) {
                    let i = choose|i: int| 0 <= i < old(self)@.len() && old(self)@[i] == key@;
                    lemma_lex_irreflexive(key@);
                }
                assert(old(self)@.to_set().remove(key@) =~= old(self)@.to_set());
            }
            return ;
        }
        let ghost before = self.keys@;
        let mut keys: Vec<String> = Vec::new();
        std::mem::swap(&mut keys, &mut self.keys);
        keys.remove(p);
        proof {
            let s = keys@.map_values(|s: String| s@);
            let o = before.map_values(|s: String| s@);
            assert(s =~= o.remove(p as int));
            assert forall|i: int, j: int| 0 <= i < j < s.len() implies lex_lt(s[i], s[j]) by {
                if i < p && j >= p {
                    assert(s[j] == o[j + 1]);
                } else if i >= p {
                    assert(s[i] == o[i + 1]);
                    assert(s[j] == o[j + 1]);
                }
            }
            assert(s.to_set() =~= o.to_set().remove(k@)) by {
                assert forall|x: Seq<char>| s.to_set().contains(x) implies o.to_set().remove(
                    k@,
                ).contains(x) by {
                    let i = choose|i: int| 0 <= i < s.len() && s[i] == x;
                    if i < p {
                        assert(o[i] == x);
                        assert(lex_lt(x, k@));
                        lemma_lex_irreflexive(x);
                    } else {
                        assert(o[i + 1] == x);
                        assert(lex_lt(k@, x));
                        lemma_lex_irreflexive(x);
                    }
                }
                assert forall|x: Seq<char>| o.to_set().remove(k@).contains(x) implies s.to_set().contains(x) by {
                    let i = choose|i: int| 0 <= i < o.len() && o[i] == x;
                    if i < p {
                        assert(s[i] == x);
                    } else {
                        assert(i != p);
                        assert(s[i - 1] == x);
                    }
                }
            }
        }
        self.keys = keys;
    }

    /// Removes every key.
    pub fn clear(&mut self)
        ensures
            final(self)@ == Seq::<Seq<char>>::empty(),
    {
        self.keys = Vec::new();
    }

    /// The number of keys.
    pub fn len(&self) -> (r: usize)
        ensures
            r == self@.len(),
    {
        self.keys.len()
    }

    /// Whether the set is empty.
    pub fn is_empty(&self) -> (r: bool)
        ensures
            r == (self@.len() == 0),
    {
        self.keys.len() == 0
    }

    /// The keys in ascending order.
    pub fn keys(&self) -> (r: &Vec<String>)
        ensures
            r@.map_values(|s: String| s@) == self@,
            strictly_sorted(self@),
    {
        proof {
            use_type_invariant(self);
        }
        &self.keys
    }
}

/// Where the key `k` is in `v`, whose keys strictly increase, or where it would go.
pub fn locate_key<T: Keyed>(v: &Vec<T>, k: &Vec<char>) -> (r: (usize, bool))
    requires
        strictly_sorted_by_key(v@),
    ensures
        r.0 <= v@.len(),
        forall|i: int| 0 <= i < r.0 ==> lex_lt(#[trigger] v@[i].key_of(), k@),
        r.1 ==> r.0 < v@.len() && v@[r.0 as int].key_of() == k@,
        !r.1 ==> forall|i: int| r.0 <= i < v@.len() ==> lex_lt(k@, #[trigger] v@[i].key_of()),
        !r.1 <==> forall|i: int| 0 <= i < v@.len() ==> #[trigger] v@[i].key_of() != k@,
{
    let mut p: usize = 0;
    while p < v.len()
        invariant
            p <= v@.len(),
            strictly_sorted_by_key(v@),
            forall|i: int| 0 <= i < p ==> lex_lt(#[trigger] v@[i].key_of(), k@),
        decreases v.len() - p,
    {
        let c = v[p].key_chars();
        if !chars_lt(&c, k) {
            let found = chars_eq(&c, k);
            proof {
                lemma_lex_total(k@, c@);
                if !found {
                    assert forall|i: int| p <= i < v@.len() implies lex_lt(k@, #[trigger] v@[i].key_of()) by {
                        if i > p {
                            lemma_lex_transitive(k@, v@[p as int].key_of(), v@[i].key_of());
                        }
                    }
                }
                assert forall|i: int| 0 <= i < v@.len() && #[trigger] v@[i].key_of() == k@ implies found by {
                    lemma_lex_irreflexive(k@);
                }
            }
            return (p, found);
        }
        p = p + 1;
    }
    proof {
        assert forall|i: int| 0 <= i < v@.len() implies #[trigger] v@[i].key_of() != k@ by {
            lemma_lex_irreflexive(k@);
        }
    }
    (p, false)
}

/// Inserting a value whose key is new at its place keeps keys strictly increasing.
pub proof fn lemma_insert_keeps_strict<T: Keyed>(v: Seq<T>, p: int, x: T)
    requires
        strictly_sorted_by_key(v),
        0 <= p <= v.len(),
        forall|i: int| 0 <= i < p ==> lex_lt(#[trigger] v[i].key_of(), x.key_of()),
        forall|i: int| p <= i < v.len() ==> lex_lt(x.key_of(), #[trigger] v[i].key_of()),
    ensures
        strictly_sorted_by_key(v.insert(p, x)),
{
    let s = v.insert(p, x);
    assert forall|i: int, j: int| 0 <= i < j < s.len() implies lex_lt(s[i].key_of(), s[j].key_of()) by {
        if j < p {
        } else if i < p && j == p {
        } else if i < p {
            assert(s[j] == v[j - 1]);
            lemma_lex_transitive(v[i].key_of(), x.key_of(), v[j - 1].key_of());
        } else if i == p {
            assert(s[j] == v[j - 1]);
        } else {
            assert(s[i] == v[i - 1]);
            assert(s[j] == v[j - 1]);
        }
    }
}

} // verus!
