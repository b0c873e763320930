//! Ordered collections of identifier names.
//!
//! The translator keeps every name-keyed collection in a canonical shape so
//! that lowering and emission are deterministic: sets and maps are vectors
//! sorted strictly by the lexicographic order of the name's characters.
//! Association lists that must remember insertion order (imported signatures,
//! lowered subroutines) are plain vectors with replace-on-insert.

use vstd::prelude::*;

use crate::ast::Type;

verus! {

broadcast use vstd::seq_lib::group_seq_properties;

/// Strict lexicographic order on character sequences, by unicode scalar value.
pub open spec fn lex_lt(a: Seq<char>, b: Seq<char>) -> bool
    decreases a.len(),
{
    if b.len() == 0 {
        false
    } else if a.len() == 0 {
        true
    } else if a[0] < b[0] {
        true
    } else if b[0] < a[0] {
        false
    } else {
        lex_lt(a.drop_first(), b.drop_first())
    }
}

pub proof fn lemma_lex_lt_irrefl(a: Seq<char>)
    ensures
        !lex_lt(a, a),
    decreases a.len(),
{
    if a.len() > 0 {
        lemma_lex_lt_irrefl(a.drop_first());
    }
}

/// Two sequences that neither precede nor follow each other are equal.
pub proof fn lemma_lex_lt_connected(a: Seq<char>, b: Seq<char>)
    requires
        !lex_lt(a, b),
        !lex_lt(b, a),
    ensures
        a == b,
    decreases a.len(),
{
    if a.len() == 0 {
        assert(b.len() == 0);
        assert(a =~= b);
    } else {
        assert(b.len() > 0);
        lemma_lex_lt_connected(a.drop_first(), b.drop_first());
        assert(a[0] == b[0]);
        assert(a =~= b) by {
            assert(forall|i: int|
                1 <= i < a.len() ==> a[i] == #[trigger] a.drop_first()[i - 1]);
        }
    }
}

pub proof fn lemma_lex_lt_asym(a: Seq<char>, b: Seq<char>)
    requires
        lex_lt(a, b),
    ensures
        !lex_lt(b, a),
    decreases a.len(),
{
    if a.len() > 0 && b.len() > 0 && a[0] == b[0] {
        lemma_lex_lt_asym(a.drop_first(), b.drop_first());
    }
}

pub proof fn lemma_lex_lt_trans(a: Seq<char>, b: Seq<char>, c: Seq<char>)
    requires
        lex_lt(a, b),
        lex_lt(b, c),
    ensures
        lex_lt(a, c),
    decreases a.len(),
{
    if a.len() > 0 && b.len() > 0 && c.len() > 0 && a[0] == b[0] && b[0] == c[0] {
        lemma_lex_lt_trans(a.drop_first(), b.drop_first(), c.drop_first());
    }
}


/// A name that does not precede another and differs from it follows it.
pub proof fn lemma_lex_gt(a: Seq<char>, b: Seq<char>)
    requires
        !lex_lt(a, b),
        a != b,
    ensures
        lex_lt(b, a),
{
    if !lex_lt(b, a) {
        lemma_lex_lt_connected(a, b);
    }
}

/// Executable comparison of two names, pinned to [`lex_lt`].
pub fn name_lt(a: &String, b: &String) -> (r: bool)
    ensures
        r == lex_lt(a@, b@),
{
    let alen = a.as_str().unicode_len();
    let blen = b.as_str().unicode_len();
    let mut i: usize = 0;
    loop
        invariant
            i <= alen,
            i <= blen,
            alen == a@.len(),
            blen == b@.len(),
            lex_lt(a@, b@) == lex_lt(a@.skip(i as int), b@.skip(i as int)),
        decreases alen - i,
    {
        if i == alen || i == blen {
            // one side is exhausted: the shorter one precedes
            return alen < blen;
        }
        let ca = a.as_str().get_char(i);
        let cb = b.as_str().get_char(i);
        if ca < cb {
            return true;
        }
        if cb < ca {
            return false;
        }
        proof {
            assert(a@.skip(i as int).drop_first() =~= a@.skip(i + 1));
            assert(b@.skip(i as int).drop_first() =~= b@.skip(i + 1));
        }
        i = i + 1;
    }
}

/// Executable name equality, pinned to view equality.
pub fn name_eq(a: &String, b: &String) -> (r: bool)
    ensures
        r == (a@ == b@),
{
    a.eq(b)
}

// ---------------------------------------------------------------------------
// Association lists in insertion order (generic over the value).
// ---------------------------------------------------------------------------

/// First value bound to `k`, walking the list front to back.
pub open spec fn spec_find<V>(s: Seq<(Seq<char>, V)>, k: Seq<char>) -> Option<V>
    decreases s.len(),
{
    if s.len() == 0 {
        None
    } else if s[0].0 == k {
        Some(s[0].1)
    } else {
        spec_find(s.drop_first(), k)
    }
}

/// Bind `k` to `v`: replace the first binding of `k` in place, or append.
pub open spec fn spec_put<V>(s: Seq<(Seq<char>, V)>, k: Seq<char>, v: V) -> Seq<(Seq<char>, V)>
    decreases s.len(),
{
    if s.len() == 0 {
        seq![(k, v)]
    } else if s[0].0 == k {
        seq![(k, v)] + s.drop_first()
    } else {
        seq![s[0]] + spec_put(s.drop_first(), k, v)
    }
}


pub proof fn lemma_spec_put_position<V>(s: Seq<(Seq<char>, V)>, k: Seq<char>, v: V, j: int)
    requires
        0 <= j <= s.len(),
        forall|x: int| 0 <= x < j ==> s[x].0 != k,
        j < s.len() ==> s[j].0 == k,
    ensures
        spec_put(s, k, v) == if j < s.len() {
            s.update(j, (k, v))
        } else {
            s.push((k, v))
        },
    decreases j,
{
    if j == 0 {
        if s.len() == 0 {
            assert(spec_put(s, k, v) =~= s.push((k, v)));
        } else {
            assert(spec_put(s, k, v) =~= s.update(0, (k, v)));
        }
    } else {
        let tail = s.drop_first();
        assert(forall|x: int| 0 <= x < j - 1 ==> #[trigger] tail[x].0 != k);
        lemma_spec_put_position(tail, k, v, j - 1);
        if j < s.len() {
            assert(tail[j - 1].0 == k);
            assert(spec_put(s, k, v) =~= seq![s[0]] + tail.update(j - 1, (k, v)));
            assert(seq![s[0]] + tail.update(j - 1, (k, v)) =~= s.update(j, (k, v)));
        } else {
            assert(spec_put(s, k, v) =~= seq![s[0]] + tail.push((k, v)));
            assert(seq![s[0]] + tail.push((k, v)) =~= s.push((k, v)));
        }
    }
}

// ---------------------------------------------------------------------------
// Sorted name sets.
// ---------------------------------------------------------------------------

/// Strictly increasing by [`lex_lt`]; implies that all entries are distinct.
pub open spec fn set_sorted(v: Seq<Seq<char>>) -> bool {
    forall|i: int, j: int| 0 <= i < j < v.len() ==> lex_lt(v[i], v[j])
}

pub open spec fn set_contains(v: Seq<Seq<char>>, n: Seq<char>) -> bool {
    exists|i: int| 0 <= i < v.len() && v[i] == n
}

/// Insert `n` into the sorted set `v`, keeping it sorted; no-op if present.
pub open spec fn spec_set_insert(v: Seq<Seq<char>>, n: Seq<char>) -> Seq<Seq<char>>
    decreases v.len(),
{
    if v.len() == 0 {
        seq![n]
    } else if lex_lt(n, v[0]) {
        seq![n] + v
    } else if n == v[0] {
        v
    } else {
        seq![v[0]] + spec_set_insert(v.drop_first(), n)
    }
}

/// Insert all of `w[i..]` into `v`, left to right.
pub open spec fn spec_set_insert_all(v: Seq<Seq<char>>, w: Seq<Seq<char>>, i: int) -> Seq<
    Seq<char>,
>
    decreases w.len() - i,
{
    if i < 0 || i >= w.len() {
        v
    } else {
        spec_set_insert_all(spec_set_insert(v, w[i]), w, i + 1)
    }
}

pub proof fn lemma_set_insert_contains(v: Seq<Seq<char>>, n: Seq<char>, m: Seq<char>)
    ensures
        set_contains(spec_set_insert(v, n), m) <==> (set_contains(v, m) || m == n),
    decreases v.len(),
{
    let r = spec_set_insert(v, n);
    if v.len() == 0 {
        assert(r[0] == n);
    } else if lex_lt(n, v[0]) {
        assert(r[0] == n);
        assert(forall|i: int| 0 <= i < v.len() ==> r[i + 1] == v[i]);
        if set_contains(r, m) && m != n {
            let i = choose|i: int| 0 <= i < r.len() && r[i] == m;
            assert(v[i - 1] == m);
        }
    } else if n == v[0] {
    } else {
        lemma_set_insert_contains(v.drop_first(), n, m);
        assert(r[0] == v[0]);
        assert(r.drop_first() =~= spec_set_insert(v.drop_first(), n));
        if set_contains(r, m) {
            let i = choose|i: int| 0 <= i < r.len() && r[i] == m;
            if i > 0 {
                assert(r.drop_first()[i - 1] == m);
            }
        }
        if set_contains(v, m) {
            let i = choose|i: int| 0 <= i < v.len() && v[i] == m;
            if i > 0 {
                assert(v.drop_first()[i - 1] == m);
                assert(set_contains(v.drop_first(), m));
            }
        }
        if set_contains(spec_set_insert(v.drop_first(), n), m) {
            let i = choose|i: int|
                0 <= i < spec_set_insert(v.drop_first(), n).len() && spec_set_insert(
                    v.drop_first(),
                    n,
                )[i] == m;
            assert(r[i + 1] == m);
        }
        if set_contains(v.drop_first(), m) {
            let i = choose|i: int| 0 <= i < v.drop_first().len() && v.drop_first()[i] == m;
            assert(v[i + 1] == m);
        }
    }
}

pub proof fn lemma_set_insert_sorted(v: Seq<Seq<char>>, n: Seq<char>)
    requires
        set_sorted(v),
    ensures
        set_sorted(spec_set_insert(v, n)),
    decreases v.len(),
{
    let r = spec_set_insert(v, n);
    if v.len() == 0 {
    } else if lex_lt(n, v[0]) {
        assert(forall|i: int| 0 <= i < v.len() ==> r[i + 1] == v[i]);
        assert forall|i: int, j: int| 0 <= i < j < r.len() implies lex_lt(r[i], r[j]) by {
            if i == 0 {
                if j > 1 {
                    lemma_lex_lt_trans(n, v[0], v[j - 1]);
                }
            }
        }
    } else if n == v[0] {
    } else {
        lemma_lex_gt(n, v[0]);
        assert(lex_lt(v[0], n));
        lemma_set_insert_sorted(v.drop_first(), n);
        assert(r[0] == v[0]);
        assert(r.drop_first() =~= spec_set_insert(v.drop_first(), n));
        assert forall|i: int, j: int| 0 <= i < j < r.len() implies lex_lt(r[i], r[j]) by {
            if i == 0 {
                lemma_set_insert_contains(v.drop_first(), n, r[j]);
                assert(set_contains(spec_set_insert(v.drop_first(), n), r[j])) by {
                    assert(r.drop_first()[j - 1] == r[j]);
                }
                if r[j] == n {
                } else {
                    let x = choose|x: int|
                        0 <= x < v.drop_first().len() && v.drop_first()[x] == r[j];
                    assert(v[x + 1] == r[j]);
                }
            } else {
                assert(r.drop_first()[i - 1] == r[i]);
                assert(r.drop_first()[j - 1] == r[j]);
            }
        }
    }
}

pub proof fn lemma_set_insert_all_sorted(v: Seq<Seq<char>>, w: Seq<Seq<char>>, i: int)
    requires
        set_sorted(v),
    ensures
        set_sorted(spec_set_insert_all(v, w, i)),
    decreases w.len() - i,
{
    if 0 <= i < w.len() {
        lemma_set_insert_sorted(v, w[i]);
        lemma_set_insert_all_sorted(spec_set_insert(v, w[i]), w, i + 1);
    }
}

pub proof fn lemma_set_insert_all_contains(
    v: Seq<Seq<char>>,
    w: Seq<Seq<char>>,
    i: int,
    m: Seq<char>,
)
    requires
        0 <= i <= w.len(),
    ensures
        set_contains(spec_set_insert_all(v, w, i), m) <==> (set_contains(v, m) || exists|j: int|
            i <= j < w.len() && w[j] == m),
    decreases w.len() - i,
{
    if i < w.len() {
        lemma_set_insert_contains(v, w[i], m);
        lemma_set_insert_all_contains(spec_set_insert(v, w[i]), w, i + 1, m);
        if set_contains(spec_set_insert_all(v, w, i), m) && !set_contains(v, m) {
            if m == w[i] {
                assert(i <= i < w.len() && w[i] == m);
            }
        }
        if exists|j: int| i <= j < w.len() && w[j] == m {
            let j = choose|j: int| i <= j < w.len() && w[j] == m;
            if j == i {
            } else {
                assert(i + 1 <= j < w.len() && w[j] == m);
            }
        }
    }
}


/// Names of `a` that are not in `b`.
pub open spec fn spec_set_diff(a: Seq<Seq<char>>, b: Seq<Seq<char>>) -> Seq<Seq<char>>
    decreases a.len(),
{
    if a.len() == 0 {
        a
    } else if set_contains(b, a[0]) {
        spec_set_diff(a.drop_first(), b)
    } else {
        seq![a[0]] + spec_set_diff(a.drop_first(), b)
    }
}

/// A set of names, kept sorted by [`lex_lt`].
pub struct NameSet {
    names: Vec<String>,
}

impl View for NameSet {
    type V = Seq<Seq<char>>;

    closed spec fn view(&self) -> Seq<Seq<char>> {
        self.names@.map_values(|s: String| s@)
    }
}

impl NameSet {
    pub fn new() -> (r: Self)
        ensures
            r@ == Seq::<Seq<char>>::empty(),
    {
        let r = Self { names: Vec::new() };
        proof {
            assert(r@ =~= Seq::<Seq<char>>::empty());
        }
        r
    }

    pub fn len(&self) -> (r: usize)
        ensures
            r == self@.len(),
    {
        self.names.len()
    }

    /// The name at position `i` of the sorted order.
    pub fn get(&self, i: usize) -> (r: &String)
        requires
            i < self@.len(),
        ensures
            r@ == self@[i as int],
    {
        &self.names[i]
    }

    pub fn contains(&self, n: &String) -> (r: bool)
        ensures
            r == set_contains(self@, n@),
    {
        let mut i: usize = 0;
        while i < self.names.len()
            invariant
                i <= self@.len(),
                forall|j: int| 0 <= j < i ==> self@[j] != n@,
            decreases self@.len() - i,
        {
            if name_eq(&self.names[i], n) {
                proof {
                    assert(self@[i as int] == n@);
                }
                return true;
            }
            i = i + 1;
        }
        false
    }

    pub fn insert(&mut self, n: String)
        ensures
            final(self)@ == spec_set_insert(old(self)@, n@),
    {
        let ghost v0 = self@;
        let mut j: usize = 0;
        while j < self.names.len() && name_lt(&self.names[j], &n)
            invariant
                j <= self@.len(),
                self@ == v0,
                forall|k: int| 0 <= k < j ==> lex_lt(self@[k], n@),
            decreases self@.len() - j,
        {
            j = j + 1;
        }
        if j < self.names.len() && name_eq(&self.names[j], &n) {
            proof {
                lemma_set_insert_position(v0, n@, j as int);
            }
            return ;
        }
        self.names.insert(j, n);
        proof {
            lemma_set_insert_position(v0, n@, j as int);
            assert(self@ =~= v0.subrange(0, j as int) + seq![n@] + v0.subrange(
                j as int,
                v0.len() as int,
            )) by {
                assert(self@ =~= self.names@.map_values(|s: String| s@));
            }
        }
    }

    /// Insert every name of `other`, left to right.
    pub fn insert_all(&mut self, other: &NameSet)
        ensures
            final(self)@ == spec_set_insert_all(old(self)@, other@, 0),
    {
        let ghost v0 = self@;
        let ghost w = other@;
        let mut i: usize = 0;
        while i < other.names.len()
            invariant
                i <= w.len(),
                other@ == w,
                spec_set_insert_all(self@, w, i as int) == spec_set_insert_all(v0, w, 0),
            decreases w.len() - i,
        {
            let ghost before = self@;
            self.insert(other.names[i].clone());
            proof {
                assert(self@ == spec_set_insert(before, w[i as int]));
            }
            i = i + 1;
        }
    }

    /// A copy with the same names.
    pub fn duplicate(&self) -> (r: NameSet)
        ensures
            r@ == self@,
    {
        let mut names: Vec<String> = Vec::new();
        let mut i: usize = 0;
        while i < self.names.len()
            invariant
                i <= self@.len(),
                names@.len() == i,
                forall|j: int| 0 <= j < i ==> names@[j]@ == self.names@[j]@,
            decreases self@.len() - i,
        {
            names.push(self.names[i].clone());
            i = i + 1;
        }
        let r = NameSet { names };
        proof {
            assert(r@ =~= self@);
        }
        r
    }

    /// The names of `self` that are not in `other`.
    pub fn diff(&self, other: &NameSet) -> (r: NameSet)
        ensures
            r@ == spec_set_diff(self@, other@),
    {
        let mut names: Vec<String> = Vec::new();
        let ghost mut built: Seq<Seq<char>> = Seq::empty();
        let mut i: usize = 0;
        while i < self.names.len()
            invariant
                i <= self@.len(),
                built.len() == names@.len(),
                forall|j: int| 0 <= j < built.len() ==> names@[j]@ == built[j],
                spec_set_diff(self@, other@) == built + spec_set_diff(
                    self@.skip(i as int),
                    other@,
                ),
            decreases self@.len() - i,
        {
            proof {
                assert(self@.skip(i as int)[0] == self@[i as int]);
                assert(self@.skip(i as int).drop_first() =~= self@.skip(i + 1));
            }
            if !other.contains(&self.names[i]) {
                names.push(self.names[i].clone());
                proof {
                    let pre = built;
                    assert((pre + seq![self@[i as int]]) + spec_set_diff(
                        self@.skip(i + 1),
                        other@,
                    ) =~= pre + (seq![self@[i as int]] + spec_set_diff(
                        self@.skip(i + 1),
                        other@,
                    )));
                    built = built.push(self@[i as int]);
                    assert(built =~= pre + seq![self@[i as int]]);
                }
            }
            i = i + 1;
        }
        proof {
            assert(self@.skip(self@.len() as int) =~= Seq::<Seq<char>>::empty());
            assert(built + spec_set_diff(self@.skip(self@.len() as int), other@) =~= built);
        }
        let r = NameSet { names };
        proof {
            assert(r@ =~= built);
        }
        r
    }
}

/// If positions `0..j` all precede `n` and position `j` (when it exists) does
/// not, inserting `n` either finds it at `j` or splices it in at `j`.
pub proof fn lemma_set_insert_position(v: Seq<Seq<char>>, n: Seq<char>, j: int)
    requires
        0 <= j <= v.len(),
        forall|k: int| 0 <= k < j ==> lex_lt(v[k], n),
        j < v.len() ==> !lex_lt(v[j], n),
    ensures
        spec_set_insert(v, n) == if j < v.len() && v[j] == n {
            v
        } else {
            v.subrange(0, j) + seq![n] + v.subrange(j, v.len() as int)
        },
    decreases j,
{
    if j == 0 {
        if v.len() == 0 {
            assert(spec_set_insert(v, n) =~= v.subrange(0, 0) + seq![n] + v.subrange(
                0,
                v.len() as int,
            ));
        } else if v[0] == n {
        } else {
            lemma_lex_lt_irrefl(n);
            if !lex_lt(n, v[0]) {
                lemma_lex_lt_connected(n, v[0]);
                assert(false);
            }
            assert(spec_set_insert(v, n) =~= v.subrange(0, 0) + seq![n] + v.subrange(
                0,
                v.len() as int,
            ));
        }
    } else {
        assert(lex_lt(v[0], n));
        lemma_lex_lt_asym(v[0], n);
        assert(!lex_lt(n, v[0]));
        assert(n != v[0]) by {
            lemma_lex_lt_irrefl(n);
        }
        let tail = v.drop_first();
        assert(forall|k: int| 0 <= k < j - 1 ==> lex_lt(#[trigger] tail[k], n));
        lemma_set_insert_position(tail, n, j - 1);
        if j < v.len() && v[j] == n {
            assert(tail[j - 1] == n);
            assert(spec_set_insert(v, n) =~= seq![v[0]] + tail);
            assert(seq![v[0]] + tail =~= v);
        } else {
            assert(spec_set_insert(v, n) =~= seq![v[0]] + (tail.subrange(0, j - 1) + seq![n]
                + tail.subrange(j - 1, tail.len() as int)));
            assert(seq![v[0]] + (tail.subrange(0, j - 1) + seq![n] + tail.subrange(
                j - 1,
                tail.len() as int,
            )) =~= v.subrange(0, j) + seq![n] + v.subrange(j, v.len() as int));
        }
    }
}

// ---------------------------------------------------------------------------
// Sorted name-to-kind maps.
// ---------------------------------------------------------------------------

/// Strictly increasing keys; implies key uniqueness.
pub open spec fn map_sorted(v: Seq<(Seq<char>, Type)>) -> bool {
    forall|i: int, j: int| 0 <= i < j < v.len() ==> lex_lt(v[i].0, v[j].0)
}

pub open spec fn map_contains_key(v: Seq<(Seq<char>, Type)>, k: Seq<char>) -> bool {
    exists|i: int| 0 <= i < v.len() && v[i].0 == k
}

/// Insert `(k, t)` keeping the keys sorted; an existing binding is replaced.
pub open spec fn spec_map_insert(v: Seq<(Seq<char>, Type)>, k: Seq<char>, t: Type) -> Seq<
    (Seq<char>, Type),
>
    decreases v.len(),
{
    if v.len() == 0 {
        seq![(k, t)]
    } else if lex_lt(k, v[0].0) {
        seq![(k, t)] + v
    } else if k == v[0].0 {
        seq![(k, t)] + v.drop_first()
    } else {
        seq![v[0]] + spec_map_insert(v.drop_first(), k, t)
    }
}

pub open spec fn spec_map_get(v: Seq<(Seq<char>, Type)>, k: Seq<char>) -> Option<Type>
    decreases v.len(),
{
    if v.len() == 0 {
        None
    } else if v[0].0 == k {
        Some(v[0].1)
    } else {
        spec_map_get(v.drop_first(), k)
    }
}

/// Remove the first binding of `k`, if any.
pub open spec fn spec_map_remove(v: Seq<(Seq<char>, Type)>, k: Seq<char>) -> Seq<
    (Seq<char>, Type),
>
    decreases v.len(),
{
    if v.len() == 0 {
        v
    } else if v[0].0 == k {
        v.drop_first()
    } else {
        seq![v[0]] + spec_map_remove(v.drop_first(), k)
    }
}

/// Remove every name of `w[i..]`.
pub open spec fn spec_map_remove_all(
    v: Seq<(Seq<char>, Type)>,
    w: Seq<Seq<char>>,
    i: int,
) -> Seq<(Seq<char>, Type)>
    decreases w.len() - i,
{
    if i < 0 || i >= w.len() {
        v
    } else {
        spec_map_remove_all(spec_map_remove(v, w[i]), w, i + 1)
    }
}

/// Insert every binding of `w[i..]`, left to right.
pub open spec fn spec_map_insert_all(
    v: Seq<(Seq<char>, Type)>,
    w: Seq<(Seq<char>, Type)>,
    i: int,
) -> Seq<(Seq<char>, Type)>
    decreases w.len() - i,
{
    if i < 0 || i >= w.len() {
        v
    } else {
        spec_map_insert_all(spec_map_insert(v, w[i].0, w[i].1), w, i + 1)
    }
}

pub proof fn lemma_map_insert_get(v: Seq<(Seq<char>, Type)>, k: Seq<char>, t: Type, k2: Seq<char>)
    ensures
        spec_map_get(spec_map_insert(v, k, t), k2) == if k2 == k {
            Some(t)
        } else {
            spec_map_get(v, k2)
        },
    decreases v.len(),
{
    let r = spec_map_insert(v, k, t);
    if v.len() == 0 {
        assert(r.drop_first() =~= Seq::<(Seq<char>, Type)>::empty());
    } else if lex_lt(k, v[0].0) {
        assert(r[0] == (k, t));
        assert(r.drop_first() =~= v);
        lemma_lex_lt_irrefl(k);
    } else if k == v[0].0 {
        assert(r[0] == (k, t));
        assert(r.drop_first() =~= v.drop_first());
    } else {
        lemma_map_insert_get(v.drop_first(), k, t, k2);
        assert(r[0] == v[0]);
        assert(r.drop_first() =~= spec_map_insert(v.drop_first(), k, t));
        lemma_lex_gt(k, v[0].0);
    }
}

pub proof fn lemma_map_insert_sorted(v: Seq<(Seq<char>, Type)>, k: Seq<char>, t: Type)
    requires
        map_sorted(v),
    ensures
        map_sorted(spec_map_insert(v, k, t)),
    decreases v.len(),
{
    let r = spec_map_insert(v, k, t);
    if v.len() == 0 {
    } else if lex_lt(k, v[0].0) {
        assert(forall|i: int| 0 <= i < v.len() ==> r[i + 1] == v[i]);
        assert forall|i: int, j: int| 0 <= i < j < r.len() implies lex_lt(r[i].0, r[j].0) by {
            if i == 0 && j > 1 {
                lemma_lex_lt_trans(k, v[0].0, v[j - 1].0);
            }
        }
    } else if k == v[0].0 {
        assert(forall|i: int| 1 <= i < v.len() ==> r[i] == v[i]);
        assert forall|i: int, j: int| 0 <= i < j < r.len() implies lex_lt(r[i].0, r[j].0) by {
            if i == 0 {
                assert(r[j] == v[j]);
            }
        }
    } else {
        lemma_lex_gt(k, v[0].0);
        assert(lex_lt(v[0].0, k));
        lemma_map_insert_sorted(v.drop_first(), k, t);
        assert(r[0] == v[0]);
        assert(r.drop_first() =~= spec_map_insert(v.drop_first(), k, t));
        assert forall|i: int, j: int| 0 <= i < j < r.len() implies lex_lt(r[i].0, r[j].0) by {
            if i == 0 {
                assert(r.drop_first()[j - 1] == r[j]);
                lemma_map_insert_contains(v.drop_first(), k, t, r[j].0);
                if r[j].0 == k {
                } else {
                    let x = choose|x: int|
                        0 <= x < v.drop_first().len() && v.drop_first()[x].0 == r[j].0;
                    assert(v[x + 1].0 == r[j].0);
                    assert(lex_lt(v[0].0, v[x + 1].0));
                }
            } else {
                assert(r.drop_first()[i - 1] == r[i]);
                assert(r.drop_first()[j - 1] == r[j]);
            }
        }
    }
}

pub proof fn lemma_map_insert_contains(
    v: Seq<(Seq<char>, Type)>,
    k: Seq<char>,
    t: Type,
    k2: Seq<char>,
)
    ensures
        map_contains_key(spec_map_insert(v, k, t), k2) <==> (map_contains_key(v, k2) || k2 == k),
    decreases v.len(),
{
    let r = spec_map_insert(v, k, t);
    if v.len() == 0 {
        assert(r[0] == (k, t));
    } else if lex_lt(k, v[0].0) {
        assert(r[0] == (k, t));
        assert(forall|i: int| 0 <= i < v.len() ==> r[i + 1] == v[i]);
        if map_contains_key(r, k2) && k2 != k {
            let i = choose|i: int| 0 <= i < r.len() && r[i].0 == k2;
            assert(v[i - 1].0 == k2);
        }
    } else if k == v[0].0 {
        assert(r[0] == (k, t));
        assert(forall|i: int| 1 <= i < v.len() ==> r[i] == v[i]);
        if map_contains_key(r, k2) && k2 != k {
            let i = choose|i: int| 0 <= i < r.len() && r[i].0 == k2;
            assert(v[i].0 == k2);
        }
        if map_contains_key(v, k2) && k2 != k {
            let i = choose|i: int| 0 <= i < v.len() && v[i].0 == k2;
            assert(r[i].0 == k2);
        }
    } else {
        lemma_map_insert_contains(v.drop_first(), k, t, k2);
        assert(r[0] == v[0]);
        assert(r.drop_first() =~= spec_map_insert(v.drop_first(), k, t));
        if map_contains_key(r, k2) {
            let i = choose|i: int| 0 <= i < r.len() && r[i].0 == k2;
            if i > 0 {
                assert(r.drop_first()[i - 1].0 == k2);
            }
        }
        if map_contains_key(v, k2) {
            let i = choose|i: int| 0 <= i < v.len() && v[i].0 == k2;
            if i > 0 {
                assert(v.drop_first()[i - 1].0 == k2);
            }
        }
        if map_contains_key(spec_map_insert(v.drop_first(), k, t), k2) {
            let i = choose|i: int|
                0 <= i < spec_map_insert(v.drop_first(), k, t).len() && spec_map_insert(
                    v.drop_first(),
                    k,
                    t,
                )[i].0 == k2;
            assert(r[i + 1].0 == k2);
        }
        if map_contains_key(v.drop_first(), k2) {
            let i = choose|i: int| 0 <= i < v.drop_first().len() && v.drop_first()[i].0 == k2;
            assert(v[i + 1].0 == k2);
        }
    }
}

/// A map from names to kinds, kept sorted by key.
pub struct NameMap {
    entries: Vec<(String, Type)>,
}

impl View for NameMap {
    type V = Seq<(Seq<char>, Type)>;

    closed spec fn view(&self) -> Seq<(Seq<char>, Type)> {
        self.entries@.map_values(|p: (String, Type)| (p.0@, p.1))
    }
}

impl NameMap {
    pub fn new() -> (r: Self)
        ensures
            r@ == Seq::<(Seq<char>, Type)>::empty(),
    {
        let r = Self { entries: Vec::new() };
        proof {
            assert(r@ =~= Seq::<(Seq<char>, Type)>::empty());
        }
        r
    }

    pub fn len(&self) -> (r: usize)
        ensures
            r == self@.len(),
    {
        self.entries.len()
    }

    /// The name at position `i` of the sorted order.
    pub fn key_at(&self, i: usize) -> (r: &String)
        requires
            i < self@.len(),
        ensures
            r@ == self@[i as int].0,
    {
        &self.entries[i].0
    }

    /// The kind at position `i` of the sorted order.
    pub fn ty_at(&self, i: usize) -> (r: Type)
        requires
            i < self@.len(),
        ensures
            r == self@[i as int].1,
    {
        self.entries[i].1
    }


    pub fn contains_key(&self, k: &String) -> (r: bool)
        ensures
            r == map_contains_key(self@, k@),
    {
        let mut i: usize = 0;
        while i < self.entries.len()
            invariant
                i <= self@.len(),
                forall|j: int| 0 <= j < i ==> self@[j].0 != k@,
            decreases self@.len() - i,
        {
            if name_eq(&self.entries[i].0, k) {
                proof {
                    assert(self@[i as int].0 == k@);
                }
                return true;
            }
            i = i + 1;
        }
        false
    }

    pub fn get(&self, k: &String) -> (r: Option<Type>)
        ensures
            r == spec_map_get(self@, k@),
    {
        let ghost v = self@;
        let mut i: usize = 0;
        while i < self.entries.len()
            invariant
                i <= v.len(),
                self@ == v,
                spec_map_get(v, k@) == spec_map_get(v.skip(i as int), k@),
            decreases v.len() - i,
        {
            proof {
                assert(v.skip(i as int)[0] == v[i as int]);
                assert(v.skip(i as int).drop_first() =~= v.skip(i + 1));
            }
            if name_eq(&self.entries[i].0, k) {
                return Some(self.entries[i].1);
            }
            i = i + 1;
        }
        proof {
            assert(v.skip(v.len() as int) =~= Seq::<(Seq<char>, Type)>::empty());
        }
        None
    }

    pub fn insert(&mut self, k: String, t: Type)
        ensures
            final(self)@ == spec_map_insert(old(self)@, k@, t),
    {
        let ghost v0 = self@;
        let mut j: usize = 0;
        while j < self.entries.len() && name_lt(&self.entries[j].0, &k)
            invariant
                j <= self@.len(),
                self@ == v0,
                forall|x: int| 0 <= x < j ==> lex_lt(v0[x].0, k@),
            decreases self@.len() - j,
        {
            j = j + 1;
        }
        if j < self.entries.len() && name_eq(&self.entries[j].0, &k) {
            self.entries.set(j, (k, t));
            proof {
                lemma_map_insert_position(v0, k@, t, j as int);
                assert(self@ =~= v0.update(j as int, (k@, t)));
                assert(self@ =~= spec_map_insert(v0, k@, t));
            }
            return ;
        }
        self.entries.insert(j, (k, t));
        proof {
            lemma_map_insert_position(v0, k@, t, j as int);
            assert(self@ =~= v0.subrange(0, j as int) + seq![(k@, t)] + v0.subrange(
                j as int,
                v0.len() as int,
            ));
        }
    }

    /// Insert every binding of `other`, left to right.
    pub fn insert_all(&mut self, other: &NameMap)
        ensures
            final(self)@ == spec_map_insert_all(old(self)@, other@, 0),
    {
        let ghost v0 = self@;
        let ghost w = other@;
        let mut i: usize = 0;
        while i < other.entries.len()
            invariant
                i <= w.len(),
                other@ == w,
                spec_map_insert_all(self@, w, i as int) == spec_map_insert_all(v0, w, 0),
            decreases w.len() - i,
        {
            let ghost before = self@;
            let (k, t) = (other.entries[i].0.clone(), other.entries[i].1);
            self.insert(k, t);
            proof {
                assert(self@ == spec_map_insert(before, w[i as int].0, w[i as int].1));
            }
            i = i + 1;
        }
    }


    /// A copy with the same bindings.
    pub fn duplicate(&self) -> (r: NameMap)
        ensures
            r@ == self@,
    {
        let mut entries: Vec<(String, Type)> = Vec::new();
        let mut i: usize = 0;
        while i < self.entries.len()
            invariant
                i <= self@.len(),
                entries@.len() == i,
                forall|j: int|
                    0 <= j < i ==> entries@[j].0@ == self.entries@[j].0@ && entries@[j].1
                        == self.entries@[j].1,
            decreases self@.len() - i,
        {
            entries.push((self.entries[i].0.clone(), self.entries[i].1));
            i = i + 1;
        }
        let r = NameMap { entries };
        proof {
            assert(r@ =~= self@);
        }
        r
    }

    pub fn remove(&mut self, k: &String)
        ensures
            final(self)@ == spec_map_remove(old(self)@, k@),
    {
        let ghost v0 = self@;
        let mut j: usize = 0;
        while j < self.entries.len()
            invariant
                j <= self@.len(),
                self@ == v0,
                old(self)@ == v0,
                forall|x: int| 0 <= x < j ==> v0[x].0 != k@,
            decreases self@.len() - j,
        {
            if name_eq(&self.entries[j].0, k) {
                proof {
                    assert(v0[j as int].0 == k@);
                }
                self.entries.remove(j);
                proof {
                    lemma_map_remove_position(v0, k@, j as int);
                    assert(self@ =~= v0.subrange(0, j as int) + v0.subrange(
                        j + 1,
                        v0.len() as int,
                    ));
                }
                return ;
            }
            j = j + 1;
        }
        proof {
            lemma_map_remove_absent(v0, k@);
        }
    }

    /// Remove every name of `locals`, left to right.
    pub fn remove_all(&mut self, locals: &NameSet)
        ensures
            final(self)@ == spec_map_remove_all(old(self)@, locals@, 0),
    {
        let ghost v0 = self@;
        let ghost w = locals@;
        let mut i: usize = 0;
        while i < locals.len()
            invariant
                i <= w.len(),
                locals@ == w,
                spec_map_remove_all(self@, w, i as int) == spec_map_remove_all(v0, w, 0),
            decreases w.len() - i,
        {
            let ghost before = self@;
            let n = locals.get(i).clone();
            self.remove(&n);
            proof {
                assert(self@ == spec_map_remove(before, w[i as int]));
            }
            i = i + 1;
        }
    }
}

pub proof fn lemma_map_insert_position(v: Seq<(Seq<char>, Type)>, k: Seq<char>, t: Type, j: int)
    requires
        0 <= j <= v.len(),
        forall|x: int| 0 <= x < j ==> lex_lt(v[x].0, k),
        j < v.len() ==> !lex_lt(v[j].0, k),
    ensures
        spec_map_insert(v, k, t) == if j < v.len() && v[j].0 == k {
            v.update(j, (k, t))
        } else {
            v.subrange(0, j) + seq![(k, t)] + v.subrange(j, v.len() as int)
        },
    decreases j,
{
    if j == 0 {
        if v.len() == 0 {
            assert(spec_map_insert(v, k, t) =~= v.subrange(0, 0) + seq![(k, t)] + v.subrange(
                0,
                v.len() as int,
            ));
        } else if v[0].0 == k {
            assert(spec_map_insert(v, k, t) =~= v.update(0, (k, t)));
        } else {
            if !lex_lt(k, v[0].0) {
                lemma_lex_lt_connected(k, v[0].0);
                assert(false);
            }
            assert(spec_map_insert(v, k, t) =~= v.subrange(0, 0) + seq![(k, t)] + v.subrange(
                0,
                v.len() as int,
            ));
        }
    } else {
        assert(lex_lt(v[0].0, k));
        lemma_lex_lt_asym(v[0].0, k);
        assert(k != v[0].0) by {
            lemma_lex_lt_irrefl(k);
        }
        let tail = v.drop_first();
        assert(forall|x: int| 0 <= x < j - 1 ==> lex_lt(#[trigger] tail[x].0, k));
        lemma_map_insert_position(tail, k, t, j - 1);
        if j < v.len() && v[j].0 == k {
            assert(tail[j - 1].0 == k);
            assert(spec_map_insert(v, k, t) =~= seq![v[0]] + tail.update(j - 1, (k, t)));
            assert(seq![v[0]] + tail.update(j - 1, (k, t)) =~= v.update(j, (k, t)));
        } else {
            assert(spec_map_insert(v, k, t) =~= seq![v[0]] + (tail.subrange(0, j - 1) + seq![
                (k, t),
            ] + tail.subrange(j - 1, tail.len() as int)));
            assert(seq![v[0]] + (tail.subrange(0, j - 1) + seq![(k, t)] + tail.subrange(
                j - 1,
                tail.len() as int,
            )) =~= v.subrange(0, j) + seq![(k, t)] + v.subrange(j, v.len() as int));
        }
    }
}

pub proof fn lemma_map_remove_position(v: Seq<(Seq<char>, Type)>, k: Seq<char>, j: int)
    requires
        0 <= j < v.len(),
        forall|x: int| 0 <= x < j ==> v[x].0 != k,
        v[j].0 == k,
    ensures
        spec_map_remove(v, k) == v.subrange(0, j) + v.subrange(j + 1, v.len() as int),
    decreases j,
{
    if j == 0 {
        assert(spec_map_remove(v, k) =~= v.subrange(0, 0) + v.subrange(1, v.len() as int));
    } else {
        let tail = v.drop_first();
        assert(forall|x: int| 0 <= x < j - 1 ==> #[trigger] tail[x].0 != k);
        assert(tail[j - 1].0 == k);
        lemma_map_remove_position(tail, k, j - 1);
        assert(spec_map_remove(v, k) =~= seq![v[0]] + (tail.subrange(0, j - 1) + tail.subrange(
            j,
            tail.len() as int,
        )));
        assert(seq![v[0]] + (tail.subrange(0, j - 1) + tail.subrange(j, tail.len() as int))
            =~= v.subrange(0, j) + v.subrange(j + 1, v.len() as int));
    }
}

pub proof fn lemma_map_remove_absent(v: Seq<(Seq<char>, Type)>, k: Seq<char>)
    requires
        forall|x: int| 0 <= x < v.len() ==> v[x].0 != k,
    ensures
        spec_map_remove(v, k) == v,
    decreases v.len(),
{
    if v.len() > 0 {
        lemma_map_remove_absent(v.drop_first(), k);
        assert(spec_map_remove(v, k) =~= seq![v[0]] + v.drop_first());
        assert(seq![v[0]] + v.drop_first() =~= v);
    }
}


pub proof fn lemma_map_get_absent(v: Seq<(Seq<char>, Type)>, k: Seq<char>)
    requires
        forall|i: int| 0 <= i < v.len() ==> v[i].0 != k,
    ensures
        spec_map_get(v, k) is None,
    decreases v.len(),
{
    if v.len() > 0 {
        assert(forall|i: int| 0 <= i < v.drop_first().len() ==> #[trigger] v.drop_first()[i].0
            != k);
        lemma_map_get_absent(v.drop_first(), k);
    }
}

pub proof fn lemma_map_get_contains(v: Seq<(Seq<char>, Type)>, k: Seq<char>)
    ensures
        map_contains_key(v, k) <==> spec_map_get(v, k) is Some,
    decreases v.len(),
{
    if v.len() > 0 {
        lemma_map_get_contains(v.drop_first(), k);
        if map_contains_key(v, k) && v[0].0 != k {
            let i = choose|i: int| 0 <= i < v.len() && v[i].0 == k;
            assert(v.drop_first()[i - 1].0 == k);
        }
        if map_contains_key(v.drop_first(), k) {
            let i = choose|i: int| 0 <= i < v.drop_first().len() && v.drop_first()[i].0 == k;
            assert(v[i + 1].0 == k);
        }
    }
}

pub proof fn lemma_map_remove_sorted(v: Seq<(Seq<char>, Type)>, k: Seq<char>)
    requires
        map_sorted(v),
    ensures
        map_sorted(spec_map_remove(v, k)),
        forall|k2: Seq<char>|
            #[trigger] map_contains_key(spec_map_remove(v, k), k2) ==> map_contains_key(v, k2),
    decreases v.len(),
{
    let r = spec_map_remove(v, k);
    if v.len() == 0 {
    } else if v[0].0 == k {
        assert(forall|i: int, j: int|
            0 <= i < j < v.drop_first().len() ==> lex_lt(
                #[trigger] v.drop_first()[i].0,
                #[trigger] v.drop_first()[j].0,
            ));
        assert forall|k2: Seq<char>| #[trigger] map_contains_key(r, k2) implies map_contains_key(
            v,
            k2,
        ) by {
            let i = choose|i: int| 0 <= i < r.len() && r[i].0 == k2;
            assert(v[i + 1].0 == k2);
        }
    } else {
        assert(forall|i: int, j: int|
            0 <= i < j < v.drop_first().len() ==> lex_lt(
                #[trigger] v.drop_first()[i].0,
                #[trigger] v.drop_first()[j].0,
            ));
        lemma_map_remove_sorted(v.drop_first(), k);
        assert(r[0] == v[0]);
        assert(r.drop_first() =~= spec_map_remove(v.drop_first(), k));
        assert forall|k2: Seq<char>| #[trigger] map_contains_key(r, k2) implies map_contains_key(
            v,
            k2,
        ) by {
            let i = choose|i: int| 0 <= i < r.len() && r[i].0 == k2;
            if i > 0 {
                assert(r.drop_first()[i - 1].0 == k2);
                assert(map_contains_key(spec_map_remove(v.drop_first(), k), k2));
                let x = choose|x: int|
                    0 <= x < v.drop_first().len() && v.drop_first()[x].0 == k2;
                assert(v[x + 1].0 == k2);
            }
        }
        assert forall|i: int, j: int| 0 <= i < j < r.len() implies lex_lt(r[i].0, r[j].0) by {
            if i == 0 {
                assert(r.drop_first()[j - 1] == r[j]);
                assert(map_contains_key(spec_map_remove(v.drop_first(), k), r[j].0)) by {
                    assert(spec_map_remove(v.drop_first(), k)[j - 1].0 == r[j].0);
                }
                let x = choose|x: int|
                    0 <= x < v.drop_first().len() && v.drop_first()[x].0 == r[j].0;
                assert(v[x + 1].0 == r[j].0);
                assert(lex_lt(v[0].0, v[x + 1].0));
            } else {
                assert(r.drop_first()[i - 1] == r[i]);
                assert(r.drop_first()[j - 1] == r[j]);
            }
        }
    }
}

/// Removing a key from a sorted map removes exactly that key.
pub proof fn lemma_map_remove_get(v: Seq<(Seq<char>, Type)>, k: Seq<char>, k2: Seq<char>)
    requires
        map_sorted(v),
    ensures
        spec_map_get(spec_map_remove(v, k), k2) == if k2 == k {
            Option::<Type>::None
        } else {
            spec_map_get(v, k2)
        },
    decreases v.len(),
{
    let r = spec_map_remove(v, k);
    if v.len() == 0 {
    } else if v[0].0 == k {
        if k2 == k {
            assert forall|i: int| 0 <= i < v.drop_first().len() implies #[trigger] v.drop_first()[i].0
                != k by {
                assert(lex_lt(v[0].0, v[i + 1].0));
                lemma_lex_lt_irrefl(k);
            }
            lemma_map_get_absent(v.drop_first(), k);
        }
    } else {
        assert(forall|i: int, j: int|
            0 <= i < j < v.drop_first().len() ==> lex_lt(
                #[trigger] v.drop_first()[i].0,
                #[trigger] v.drop_first()[j].0,
            ));
        lemma_map_remove_get(v.drop_first(), k, k2);
        assert(r[0] == v[0]);
        assert(r.drop_first() =~= spec_map_remove(v.drop_first(), k));
    }
}

/// Removing a list of names from a sorted map removes exactly those names.
pub proof fn lemma_map_remove_all_get(
    v: Seq<(Seq<char>, Type)>,
    w: Seq<Seq<char>>,
    i: int,
    k2: Seq<char>,
)
    requires
        map_sorted(v),
        0 <= i <= w.len(),
    ensures
        map_sorted(spec_map_remove_all(v, w, i)),
        spec_map_get(spec_map_remove_all(v, w, i), k2) == if exists|j: int|
            i <= j < w.len() && w[j] == k2 {
            Option::<Type>::None
        } else {
            spec_map_get(v, k2)
        },
    decreases w.len() - i,
{
    if i < w.len() {
        lemma_map_remove_sorted(v, w[i]);
        lemma_map_remove_get(v, w[i], k2);
        lemma_map_remove_all_get(spec_map_remove(v, w[i]), w, i + 1, k2);
        if k2 == w[i] {
            assert(i <= i < w.len() && w[i] == k2);
        }
        if exists|j: int| i <= j < w.len() && w[j] == k2 {
            let j = choose|j: int| i <= j < w.len() && w[j] == k2;
            if j != i {
                assert(i + 1 <= j < w.len() && w[j] == k2);
            }
        }
    }
}

/// Entries after a bulk insert come from the base map or from the list.
pub proof fn lemma_map_insert_all_get(
    v: Seq<(Seq<char>, Type)>,
    w: Seq<(Seq<char>, Type)>,
    i: int,
    k2: Seq<char>,
)
    requires
        0 <= i <= w.len(),
    ensures
        map_contains_key(spec_map_insert_all(v, w, i), k2) <==> (map_contains_key(v, k2)
            || exists|j: int| i <= j < w.len() && w[j].0 == k2),
        forall|t: Type|
            spec_map_get(spec_map_insert_all(v, w, i), k2) == Option::Some(t) ==> (spec_map_get(
                v,
                k2,
            ) == Option::Some(t) || exists|j: int| i <= j < w.len() && w[j] == (k2, t)),
    decreases w.len() - i,
{
    if i < w.len() {
        lemma_map_insert_contains(v, w[i].0, w[i].1, k2);
        lemma_map_insert_get(v, w[i].0, w[i].1, k2);
        lemma_map_insert_all_get(spec_map_insert(v, w[i].0, w[i].1), w, i + 1, k2);
        if map_contains_key(v, k2) || exists|j: int| i <= j < w.len() && w[j].0 == k2 {
            if map_contains_key(v, k2) {
                assert(map_contains_key(spec_map_insert(v, w[i].0, w[i].1), k2));
            } else {
                let j = choose|j: int| i <= j < w.len() && w[j].0 == k2;
                if j == i {
                    assert(map_contains_key(spec_map_insert(v, w[i].0, w[i].1), k2));
                } else {
                    assert(i + 1 <= j < w.len() && w[j].0 == k2);
                }
            }
        }
        assert forall|t: Type|
            spec_map_get(spec_map_insert_all(v, w, i), k2) == Option::Some(t) implies (
        spec_map_get(v, k2) == Option::Some(t) || exists|j: int|
            i <= j < w.len() && w[j] == (k2, t)) by {
            if spec_map_get(spec_map_insert(v, w[i].0, w[i].1), k2) == Option::Some(t) {
                if k2 == w[i].0 && t == w[i].1 {
                    assert(w[i] == (k2, t));
                }
            }
        }
    }
}

pub proof fn lemma_map_insert_all_sorted(
    v: Seq<(Seq<char>, Type)>,
    w: Seq<(Seq<char>, Type)>,
    i: int,
)
    requires
        map_sorted(v),
        0 <= i <= w.len(),
    ensures
        map_sorted(spec_map_insert_all(v, w, i)),
    decreases w.len() - i,
{
    if i < w.len() {
        lemma_map_insert_sorted(v, w[i].0, w[i].1);
        lemma_map_insert_all_sorted(spec_map_insert(v, w[i].0, w[i].1), w, i + 1);
    }
}

pub proof fn lemma_set_diff_contains(a: Seq<Seq<char>>, b: Seq<Seq<char>>, n: Seq<char>)
    ensures
        set_contains(spec_set_diff(a, b), n) <==> (set_contains(a, n) && !set_contains(b, n)),
    decreases a.len(),
{
    let r = spec_set_diff(a, b);
    if a.len() == 0 {
    } else {
        lemma_set_diff_contains(a.drop_first(), b, n);
        if set_contains(b, a[0]) {
            if set_contains(a, n) && !set_contains(b, n) {
                let i = choose|i: int| 0 <= i < a.len() && a[i] == n;
                assert(a.drop_first()[i - 1] == n);
            }
        } else {
            assert(r[0] == a[0]);
            assert(r.drop_first() =~= spec_set_diff(a.drop_first(), b));
            if set_contains(r, n) {
                let i = choose|i: int| 0 <= i < r.len() && r[i] == n;
                if i == 0 {
                } else {
                    assert(r.drop_first()[i - 1] == n);
                }
            }
            if set_contains(a, n) && !set_contains(b, n) && a[0] != n {
                let i = choose|i: int| 0 <= i < a.len() && a[i] == n;
                assert(a.drop_first()[i - 1] == n);
                assert(set_contains(spec_set_diff(a.drop_first(), b), n));
                let x = choose|x: int|
                    0 <= x < spec_set_diff(a.drop_first(), b).len() && spec_set_diff(
                        a.drop_first(),
                        b,
                    )[x] == n;
                assert(r[x + 1] == n);
            }
        }
    }
}

pub proof fn lemma_set_diff_sorted(a: Seq<Seq<char>>, b: Seq<Seq<char>>)
    requires
        set_sorted(a),
    ensures
        set_sorted(spec_set_diff(a, b)),
    decreases a.len(),
{
    let r = spec_set_diff(a, b);
    if a.len() > 0 {
        assert(forall|i: int, j: int|
            0 <= i < j < a.drop_first().len() ==> lex_lt(
                #[trigger] a.drop_first()[i],
                #[trigger] a.drop_first()[j],
            ));
        lemma_set_diff_sorted(a.drop_first(), b);
        if !set_contains(b, a[0]) {
            assert(r[0] == a[0]);
            assert(r.drop_first() =~= spec_set_diff(a.drop_first(), b));
            assert forall|i: int, j: int| 0 <= i < j < r.len() implies lex_lt(r[i], r[j]) by {
                if i == 0 {
                    assert(r.drop_first()[j - 1] == r[j]);
                    lemma_set_diff_contains(a.drop_first(), b, r[j]);
                    assert(set_contains(spec_set_diff(a.drop_first(), b), r[j])) by {
                        assert(spec_set_diff(a.drop_first(), b)[j - 1] == r[j]);
                    }
                    let x = choose|x: int|
                        0 <= x < a.drop_first().len() && a.drop_first()[x] == r[j];
                    assert(a[x + 1] == r[j]);
                    assert(lex_lt(a[0], a[x + 1]));
                } else {
                    assert(r.drop_first()[i - 1] == r[i]);
                    assert(r.drop_first()[j - 1] == r[j]);
                }
            }
        }
    }
}


/// In a sorted map, the entry at any position is what lookup returns.
pub proof fn lemma_map_get_at_index(v: Seq<(Seq<char>, Type)>, j: int)
    requires
        map_sorted(v),
        0 <= j < v.len(),
    ensures
        spec_map_get(v, v[j].0) == Option::Some(v[j].1),
    decreases j,
{
    if j == 0 {
    } else {
        assert(lex_lt(v[0].0, v[j].0));
        assert(v[0].0 != v[j].0) by {
            lemma_lex_lt_irrefl(v[j].0);
        }
        assert(forall|i: int, x: int|
            0 <= i < x < v.drop_first().len() ==> lex_lt(
                #[trigger] v.drop_first()[i].0,
                #[trigger] v.drop_first()[x].0,
            ));
        assert(v.drop_first()[j - 1] == v[j]);
        lemma_map_get_at_index(v.drop_first(), j - 1);
    }
}


pub proof fn lemma_map_insert_all_get_absent(
    v: Seq<(Seq<char>, Type)>,
    w: Seq<(Seq<char>, Type)>,
    i: int,
    k: Seq<char>,
)
    requires
        0 <= i <= w.len(),
        forall|j: int| i <= j < w.len() ==> w[j].0 != k,
    ensures
        spec_map_get(spec_map_insert_all(v, w, i), k) == spec_map_get(v, k),
    decreases w.len() - i,
{
    if i < w.len() {
        lemma_map_insert_get(v, w[i].0, w[i].1, k);
        lemma_map_insert_all_get_absent(spec_map_insert(v, w[i].0, w[i].1), w, i + 1, k);
    }
}

/// The value a bulk insert leaves for a listed key does not depend on the
/// base map: the last binding in the list wins.
pub proof fn lemma_map_insert_all_indep(
    v1: Seq<(Seq<char>, Type)>,
    v2: Seq<(Seq<char>, Type)>,
    w: Seq<(Seq<char>, Type)>,
    i: int,
    k: Seq<char>,
)
    requires
        0 <= i <= w.len(),
        exists|j: int| i <= j < w.len() && w[j].0 == k,
    ensures
        spec_map_get(spec_map_insert_all(v1, w, i), k) == spec_map_get(
            spec_map_insert_all(v2, w, i),
            k,
        ),
    decreases w.len() - i,
{
    let j = choose|j: int| i <= j < w.len() && w[j].0 == k;
    let u1 = spec_map_insert(v1, w[i].0, w[i].1);
    let u2 = spec_map_insert(v2, w[i].0, w[i].1);
    if exists|x: int| i + 1 <= x < w.len() && w[x].0 == k {
        lemma_map_insert_all_indep(u1, u2, w, i + 1, k);
    } else {
        assert(j == i);
        lemma_map_insert_get(v1, w[i].0, w[i].1, k);
        lemma_map_insert_get(v2, w[i].0, w[i].1, k);
        assert(forall|x: int| i + 1 <= x < w.len() ==> w[x].0 != k);
        lemma_map_insert_all_get_absent(u1, w, i + 1, k);
        lemma_map_insert_all_get_absent(u2, w, i + 1, k);
    }
}

/// An insertion either replaces the first binding of the key in place or
/// appends a new one at the end; returns that position.
pub proof fn lemma_spec_put_shape<V>(s: Seq<(Seq<char>, V)>, k: Seq<char>, v: V) -> (j: int)
    ensures
        0 <= j <= s.len(),
        forall|x: int| 0 <= x < j ==> s[x].0 != k,
        j < s.len() ==> s[j].0 == k,
        spec_put(s, k, v) == (if j < s.len() {
            s.update(j, (k, v))
        } else {
            s.push((k, v))
        }),
    decreases s.len(),
{
    if s.len() == 0 {
        assert(spec_put(s, k, v) =~= s.push((k, v)));
        0
    } else if s[0].0 == k {
        assert(spec_put(s, k, v) =~= s.update(0, (k, v)));
        0
    } else {
        let t = s.drop_first();
        let j0 = lemma_spec_put_shape(t, k, v);
        let j = j0 + 1;
        assert(forall|x: int| 0 <= x < j ==> s[x].0 != k) by {
            assert(forall|x: int| 1 <= x < j ==> s[x] == #[trigger] t[x - 1]);
        }
        if j < s.len() {
            assert(s[j].0 == t[j0].0);
            assert(spec_put(s, k, v) =~= seq![s[0]] + t.update(j0, (k, v)));
            assert(seq![s[0]] + t.update(j0, (k, v)) =~= s.update(j, (k, v)));
        } else {
            assert(spec_put(s, k, v) =~= seq![s[0]] + t.push((k, v)));
            assert(seq![s[0]] + t.push((k, v)) =~= s.push((k, v)));
        }
        j
    }
}

} // verus!
