//! A map keyed by text, kept sorted by key so that enumeration is
//! deterministic.
use vstd::prelude::*;

verus! {

/// Lexicographic order on character sequences, by code point: the order of
/// `str`'s `Ord`.
pub open spec fn chars_lt(a: Seq<char>, b: Seq<char>) -> bool
    decreases a.len(),
{
    if b.len() == 0 {
        false
    } else if a.len() == 0 {
        true
    } else if a[0] != b[0] {
        a[0] < b[0]
    } else {
        chars_lt(a.drop_first(), b.drop_first())
    }
}

pub proof fn lemma_lt_irrefl(a: Seq<char>)
    ensures
        !chars_lt(a, a),
    decreases a.len(),
{
    if a.len() > 0 {
        lemma_lt_irrefl(a.drop_first());
    }
}

pub proof fn lemma_lt_trans(a: Seq<char>, b: Seq<char>, c: Seq<char>)
    requires
        chars_lt(a, b),
        chars_lt(b, c),
    ensures
        chars_lt(a, c),
    decreases a.len(),
{
    if a.len() > 0 && b.len() > 0 && c.len() > 0 && a[0] == b[0] && b[0] == c[0] {
        lemma_lt_trans(a.drop_first(), b.drop_first(), c.drop_first());
    }
}

pub proof fn lemma_lt_total(a: Seq<char>, b: Seq<char>)
    requires
        a != b,
    ensures
        chars_lt(a, b) || chars_lt(b, a),
    decreases a.len(),
{
    if a.len() > 0 && b.len() > 0 {
        if a[0] == b[0] {
            assert(a =~= seq![a[0]] + a.drop_first());
            assert(b =~= seq![b[0]] + b.drop_first());
            lemma_lt_total(a.drop_first(), b.drop_first());
        } else {
            assert(a[0] < b[0] || b[0] < a[0]);
        }
    } else if a.len() == 0 && b.len() == 0 {
        assert(a =~= b);
    }
}

/// Compares two character sequences: negative, zero or positive as `a` is
/// below, equal to or above `b`.
pub fn compare_chars(a: &[char], b: &[char]) -> (r: i8)
    ensures
        r < 0 <==> chars_lt(a@, b@),
        r == 0 <==> a@ == b@,
        r > 0 <==> chars_lt(b@, a@),
{
    let mut i: usize = 0;
    assert(a@.subrange(0, a@.len() as int) =~= a@);
    assert(b@.subrange(0, b@.len() as int) =~= b@);
    while i < a.len() && i < b.len() && a[i] == b[i]
        invariant
            i <= a@.len(),
            i <= b@.len(),
            a@.subrange(0, i as int) == b@.subrange(0, i as int),
            chars_lt(a@, b@) == chars_lt(
                a@.subrange(i as int, a@.len() as int),
                b@.subrange(i as int, b@.len() as int),
            ),
            chars_lt(b@, a@) == chars_lt(
                b@.subrange(i as int, b@.len() as int),
                a@.subrange(i as int, a@.len() as int),
            ),
        decreases a@.len() - i,
    {
        let ghost sa = a@.subrange(i as int, a@.len() as int);
        let ghost sb = b@.subrange(i as int, b@.len() as int);
        assert(sa.drop_first() =~= a@.subrange(i as int + 1, a@.len() as int));
        assert(sb.drop_first() =~= b@.subrange(i as int + 1, b@.len() as int));
        i = i + 1;
        assert(a@.subrange(0, i as int) =~= b@.subrange(0, i as int));
    }
    let ghost sa = a@.subrange(i as int, a@.len() as int);
    let ghost sb = b@.subrange(i as int, b@.len() as int);
    if i == a.len() && i == b.len() {
        assert(a@ =~= a@.subrange(0, i as int));
        assert(b@ =~= b@.subrange(0, i as int));
        proof {
            lemma_lt_irrefl(a@);
        }
        0
    } else if i == a.len() {
        assert(a@.len() != b@.len());
        -1
    } else if i == b.len() {
        assert(a@.len() != b@.len());
        1
    } else {
        assert(sa[0] == a@[i as int] && sb[0] == b@[i as int]);
        assert(a@[i as int] != b@[i as int]);
        let ca = a[i];
        let cb = b[i];
        if ca < cb {
            -1
        } else {
            1
        }
    }
}

/// A map from text keys to values, held as entries sorted strictly by key.
#[derive(Debug, Clone)]
pub struct StrMap<V> {
    entries: Vec<(Vec<char>, V)>,
}

impl<V> StrMap<V> {
    /// The keys, in order.
    pub closed spec fn keys(&self) -> Seq<Seq<char>> {
        self.entries@.map_values(|e: (Vec<char>, V)| e.0@)
    }

    /// The values, in key order.
    pub closed spec fn vals(&self) -> Seq<V> {
        self.entries@.map_values(|e: (Vec<char>, V)| e.1)
    }

    /// Keys strictly increasing: each key occurs once.
    pub open spec fn wf(&self) -> bool {
        &&& self.keys().len() == self.vals().len()
        &&& forall|i: int, j: int|
            0 <= i < j < self.keys().len() ==> chars_lt(
                #[trigger] self.keys()[i],
                #[trigger] self.keys()[j],
            )
    }

    /// Position of a key that occurs.
    pub open spec fn index_of(&self, k: Seq<char>) -> int {
        choose|i: int| 0 <= i < self.keys().len() && self.keys()[i] == k
    }

    /// The mapping that the entries hold.
    pub open spec fn view(&self) -> Map<Seq<char>, V> {
        Map::new(|k: Seq<char>| self.keys().contains(k), |k: Seq<char>| self.vals()[self.index_of(k)])
    }

    /// Each entry is in the mapping.
    pub proof fn lemma_entry(&self, i: int)
        requires
            self.wf(),
            0 <= i < self.keys().len(),
        ensures
            self@.contains_key(self.keys()[i]),
            self@[self.keys()[i]] == self.vals()[i],
            self.index_of(self.keys()[i]) == i,
    {
        let k = self.keys()[i];
        assert(self.keys().contains(k));
        let j = self.index_of(k);
        assert(0 <= j < self.keys().len() && self.keys()[j] == k);
        if j < i {
            lemma_lt_irrefl(k);
        } else if i < j {
            lemma_lt_irrefl(k);
        }
    }

    /// The number of keys equals the number of entries.
    pub proof fn lemma_len(&self)
        requires
            self.wf(),
        ensures
            self@.len() == self.keys().len(),
            self@.dom() == self.keys().to_set(),
    {
        assert(self@.dom() =~= self.keys().to_set());
        assert forall|i: int, j: int|
            0 <= i < self.keys().len() && 0 <= j < self.keys().len() && i != j implies self.keys()[i]
            != self.keys()[j] by {
            if i < j {
                assert(chars_lt(self.keys()[i], self.keys()[j]));
                lemma_lt_irrefl(self.keys()[i]);
            } else {
                assert(chars_lt(self.keys()[j], self.keys()[i]));
                lemma_lt_irrefl(self.keys()[j]);
            }
        }
        assert(self.keys().no_duplicates());
        self.keys().unique_seq_to_set();
    }

    pub fn new() -> (r: Self)
        ensures
            r.wf(),
            r@ == Map::<Seq<char>, V>::empty(),
            r.keys().len() == 0,
    {
        let r = StrMap { entries: Vec::new() };
        assert(r@ =~= Map::<Seq<char>, V>::empty());
        r
    }

    /// Number of entries.
    pub fn len(&self) -> (r: usize)
        requires
            self.wf(),
        ensures
            r == self.keys().len(),
            r == self@.len(),
    {
        proof {
            self.lemma_len();
        }
        self.entries.len()
    }

    /// Whether the map is empty.
    pub fn is_empty(&self) -> (r: bool)
        requires
            self.wf(),
        ensures
            r == (self@.len() == 0),
    {
        self.len() == 0
    }

    /// The key at position `i`, in key order.
    pub fn key_at(&self, i: usize) -> (r: &Vec<char>)
        requires
            i < self.keys().len(),
        ensures
            r@ == self.keys()[i as int],
    {
        &self.entries[i].0
    }

    /// The value at position `i`, in key order.
    pub fn value_at(&self, i: usize) -> (r: &V)
        requires
            i < self.keys().len(),
            self.wf(),
        ensures
            *r == self.vals()[i as int],
    {
        &self.entries[i].1
    }

    /// The value under the key written in `k`, if any.
    pub fn get_str(&self, k: &str) -> (r: Option<&V>)
        requires
            self.wf(),
        ensures
            r is Some <==> self@.contains_key(k@),
            r matches Some(v) ==> *v == self@[k@],
    {
        let kc = crate::text::chars_of(k);
        self.get(kc.as_slice())
    }

    /// Position of the first key not below `k`.
    fn lower_bound(&self, k: &[char]) -> (r: usize)
        requires
            self.wf(),
        ensures
            r <= self.keys().len(),
            forall|i: int| 0 <= i < r ==> chars_lt(#[trigger] self.keys()[i], k@),
            r < self.keys().len() ==> !chars_lt(self.keys()[r as int], k@),
    {
        let mut i: usize = 0;
        while i < self.entries.len()
            invariant
                self.wf(),
                i <= self.keys().len(),
                forall|j: int| 0 <= j < i ==> chars_lt(#[trigger] self.keys()[j], k@),
            decreases self.keys().len() - i,
        {
            let c = compare_chars(self.entries[i].0.as_slice(), k);
            if c >= 0 {
                return i;
            }
            i = i + 1;
        }
        i
    }

    /// The value under `k`, if any.
    pub fn get(&self, k: &[char]) -> (r: Option<&V>)
        requires
            self.wf(),
        ensures
            r is Some <==> self@.contains_key(k@),
            r matches Some(v) ==> *v == self@[k@],
    {
        let p = self.lower_bound(k);
        if p < self.entries.len() && compare_chars(self.entries[p].0.as_slice(), k) == 0 {
            proof {
                self.lemma_entry(p as int);
            }
            Some(&self.entries[p].1)
        } else {
            assert(!self.keys().contains(k@)) by {
                if self.keys().contains(k@) {
                    let j = choose|j: int| 0 <= j < self.keys().len() && self.keys()[j] == k@;
                    if j < p {
                        assert(chars_lt(self.keys()[j], k@));
                        lemma_lt_irrefl(k@);
                    } else if j > p {
                        assert(chars_lt(self.keys()[p as int], self.keys()[j]));
                        lemma_lt_total(self.keys()[p as int], k@);
                        lemma_lt_trans(k@, self.keys()[p as int], k@);
                        lemma_lt_irrefl(k@);
                    }
                }
            }
            None
        }
    }

    /// Sets the value under `k`, adding the key if it is new.
    pub fn insert(&mut self, k: Vec<char>, v: V)
        requires
            old(self).wf(),
        ensures
            final(self).wf(),
            final(self)@ == old(self)@.insert(k@, v),
    {
        let p = self.lower_bound(k.as_slice());
        let ghost ok = old(self).keys();
        let ghost ov = old(self).vals();
        let ghost kk = k@;
        let ghost replaced = p < old(self).keys().len() && old(self).keys()[p as int] == kk;
        if p < self.entries.len() && compare_chars(self.entries[p].0.as_slice(), k.as_slice()) == 0 {
            self.entries.set(p, (k, v));
            assert(self.keys() =~= ok);
            assert(self.vals() =~= ov.update(p as int, v));
        } else {
            self.entries.insert(p, (k, v));
            assert(self.keys() =~= ok.insert(p as int, kk));
            assert(self.vals() =~= ov.insert(p as int, v));
            assert forall|i: int, j: int|
                0 <= i < j < self.keys().len() implies chars_lt(
                #[trigger] self.keys()[i],
                #[trigger] self.keys()[j],
            ) by {
                if p < ok.len() {
                    lemma_lt_total(ok[p as int], kk);
                }
                if i < p && j == p {
                } else if i < p && j > p {
                    assert(chars_lt(ok[i], kk));
                    if p < ok.len() {
                        if j - 1 > p {
                            assert(chars_lt(ok[p as int], ok[j - 1]));
                            lemma_lt_trans(kk, ok[p as int], ok[j - 1]);
                        }
                        lemma_lt_trans(ok[i], kk, ok[j - 1]);
                    }
                } else if i == p {
                    if j - 1 > p {
                        assert(chars_lt(ok[p as int], ok[j - 1]));
                        lemma_lt_trans(kk, ok[p as int], ok[j - 1]);
                    }
                } else if i > p {
                    assert(chars_lt(ok[i - 1], ok[j - 1]));
                }
            }
        }
        let ghost target = old(self)@.insert(kk, v);
        assert forall|key: Seq<char>| #[trigger] self@.contains_key(key) == target.contains_key(
            key,
        ) by {
            if self.keys().contains(key) {
                let j = choose|j: int| 0 <= j < self.keys().len() && self.keys()[j] == key;
                if key != kk {
                    if j < p {
                        assert(ok[j] == key);
                    } else if self.keys().len() == ok.len() {
                        assert(ok[j] == key);
                    } else {
                        assert(j != p);
                        assert(ok[j - 1] == key);
                    }
                }
            }
            if old(self).keys().contains(key) {
                let j = choose|j: int| 0 <= j < ok.len() && ok[j] == key;
                if self.keys().len() == ok.len() {
                    assert(self.keys()[j] == key);
                } else if j < p {
                    assert(self.keys()[j] == key);
                } else {
                    assert(self.keys()[j + 1] == key);
                }
            }
            if key == kk {
                assert(self.keys()[p as int] == kk);
            }
        }
        assert forall|key: Seq<char>| #[trigger] self@.contains_key(key) implies self@[key]
            == target[key] by {
            let j = choose|j: int| 0 <= j < self.keys().len() && self.keys()[j] == key;
            self.lemma_entry(j);
            if key == kk {
                assert(self.keys()[p as int] == kk);
                self.lemma_entry(p as int);
                if replaced {
                    assert(self.vals() == ov.update(p as int, v));
                } else {
                    assert(self.vals() == ov.insert(p as int, v));
                }
                assert(self.vals()[p as int] == v);
            }
            if key != kk {
                let oj = if self.keys().len() == ok.len() || j < p {
                    j
                } else {
                    j - 1
                };
                assert(ok[oj] == key);
                if replaced {
                    assert(self.vals()[j] == ov[oj]);
                } else {
                    assert(self.vals() == ov.insert(p as int, v));
                    assert(self.vals()[j] == ov[oj]);
                }
                old(self).lemma_entry(oj);
            }
        }
        assert(self@ =~= target);
    }
}

impl StrMap<String> {
    /// A copy of this map.
    pub fn duplicate(&self) -> (r: StrMap<String>)
        requires
            self.wf(),
        ensures
            r.wf(),
            r.keys() == self.keys(),
            r.vals() == self.vals(),
            r@ == self@,
    {
        let mut entries: Vec<(Vec<char>, String)> = Vec::new();
        let mut i: usize = 0;
        while i < self.entries.len()
            invariant
                i <= self.entries@.len(),
                entries@.len() == i,
                forall|j: int|
                    0 <= j < i ==> (#[trigger] entries@[j]).0@ == self.entries@[j].0@
                        && entries@[j].1 == self.entries@[j].1,
            decreases self.entries@.len() - i,
        {
            let k = &self.entries[i].0;
            let kc = crate::text::sub_chars(k.as_slice(), 0, k.len());
            assert(k@.subrange(0, k@.len() as int) =~= k@);
            let v = self.entries[i].1.clone();
            entries.push((kc, v));
            i = i + 1;
        }
        let r = StrMap { entries };
        assert(r.keys() =~= self.keys());
        assert(r.vals() =~= self.vals());
        assert(r@ =~= self@);
        r
    }

    /// Sets `k` to `v`, both given as text.
    pub fn insert_str(&mut self, k: &str, v: &str)
        requires
            old(self).wf(),
        ensures
            final(self).wf(),
            final(self)@.dom() == old(self)@.dom().insert(k@),
            final(self)@[k@]@ == v@,
            forall|key: Seq<char>| key != k@ && old(self)@.contains_key(key) ==> #[trigger] final(self)@[key] == old(self)@[key],
    {
        let kc = crate::text::chars_of(k);
        let vs = String::from_str(v);
        self.insert(kc, vs);
    }
}

} // verus!
