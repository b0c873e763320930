//! The runtime's dataflow-value registry, as a verified state machine.
//!
//! A dataflow entry is either empty, holding the coroutines waiting on it,
//! or filled with a value handle — and once filled it stays filled:
//! dataflow values are single-assignment. `request` parks the current
//! coroutine on an empty entry; `submit` fills an entry exactly once and
//! hands back every parked waiter for re-spawning; a second submit of the
//! same id is the `DoubleAssign` violation. The thread pool that carries
//! out the re-spawning lives outside this crate's verified core; it is
//! handed plain values by these functions.

use vstd::prelude::*;

use crate::id::Generator;

verus! {

broadcast use vstd::std_specs::vec::group_vec_axioms, vstd::seq::group_seq_axioms;

/// A dataflow handle: the registry id and an opaque value slot.
#[derive(Clone, Copy, Debug, PartialEq, Eq, Structural)]
pub struct Df {
    pub id: u64,
    pub slot: u64,
}

/// A coroutine: its id, a token naming its block function, and a token
/// naming its heap context.
#[derive(Clone, Copy, Debug, PartialEq, Eq, Structural)]
pub struct Coroutine {
    pub id: u64,
    pub block: u64,
    pub ctx: u64,
}

/// One registry entry: the value once filled, and the parked waiters while
/// empty.
#[derive(Debug)]
pub struct Entry {
    pub df: Option<Df>,
    pub waiting: Vec<Coroutine>,
}

#[verifier::ext_equal]
pub struct SpecEntry {
    pub df: Option<Df>,
    pub waiting: Seq<Coroutine>,
}

impl View for Entry {
    type V = SpecEntry;

    open spec fn view(&self) -> SpecEntry {
        SpecEntry { df: self.df, waiting: self.waiting@ }
    }
}

/// The registry contents: dataflow id to entry, no id twice.
pub type SpecRegistry = Seq<(u64, SpecEntry)>;

pub open spec fn reg_find(s: SpecRegistry, k: u64) -> Option<SpecEntry>
    decreases s.len(),
{
    if s.len() == 0 {
        None
    } else if s[0].0 == k {
        Some(s[0].1)
    } else {
        reg_find(s.drop_first(), k)
    }
}

/// Bind `k` to `e`: replace the first binding in place, or append.
pub open spec fn reg_put(s: SpecRegistry, k: u64, e: SpecEntry) -> SpecRegistry
    decreases s.len(),
{
    if s.len() == 0 {
        seq![(k, e)]
    } else if s[0].0 == k {
        seq![(k, e)] + s.drop_first()
    } else {
        seq![s[0]] + reg_put(s.drop_first(), k, e)
    }
}

pub open spec fn reg_wf(s: SpecRegistry) -> bool {
    &&& (forall|i: int, j: int| 0 <= i < j < s.len() ==> s[i].0 != s[j].0)
    &&& (forall|i: int|
        0 <= i < s.len() && (#[trigger] s[i].1.df) is Some ==> s[i].1.waiting.len() == 0)
}

/// A runtime violation: the same dataflow id submitted twice.
#[derive(Clone, Copy, Debug, PartialEq, Eq, Structural)]
pub enum RuntimeError {
    DoubleAssign(u64),
}

/// What `request` does: a filled entry hands its value out unchanged; an
/// empty or absent entry parks the requesting coroutine.
pub open spec fn spec_request(s: SpecRegistry, dfid: u64, cur: Coroutine) -> (
    SpecRegistry,
    Option<Df>,
) {
    match reg_find(s, dfid) {
        Some(e) => match e.df {
            Some(d) => (s, Some(d)),
            None => (
                reg_put(s, dfid, SpecEntry { df: None, waiting: e.waiting.push(cur) }),
                None,
            ),
        },
        None => (reg_put(s, dfid, SpecEntry { df: None, waiting: seq![cur] }), None),
    }
}

/// What `submit` does: fill the entry and hand back every waiter; filling
/// a filled entry is the `DoubleAssign` violation and changes nothing.
pub open spec fn spec_submit(s: SpecRegistry, d: Df) -> core::result::Result<
    (SpecRegistry, Seq<Coroutine>),
    RuntimeError,
> {
    match reg_find(s, d.id) {
        Some(e) => match e.df {
            Some(_) => Err(RuntimeError::DoubleAssign(d.id)),
            None => Ok(
                (reg_put(s, d.id, SpecEntry { df: Some(d), waiting: Seq::empty() }), e.waiting),
            ),
        },
        None => Ok((reg_put(s, d.id, SpecEntry { df: Some(d), waiting: Seq::empty() }), Seq::empty())),
    }
}

/// The process-wide runtime state: the registry and the two id generators.
pub struct Runtime {
    storage: Vec<(u64, Entry)>,
    df_id_gen: Generator,
    cf_id_gen: Generator,
}

impl Runtime {
    /// The abstract registry contents.
    pub closed spec fn reg(&self) -> SpecRegistry {
        self.storage@.map_values(|p: (u64, Entry)| (p.0, p.1@))
    }

    pub closed spec fn spec_df_counter(&self) -> u64 {
        self.df_id_gen.spec_counter()
    }

    pub closed spec fn spec_cf_counter(&self) -> u64 {
        self.cf_id_gen.spec_counter()
    }

    pub fn new() -> (r: Self)
        ensures
            r.reg() == Seq::<(u64, SpecEntry)>::empty(),
            r.spec_df_counter() == 0,
            r.spec_cf_counter() == 0,
    {
        let r = Self {
            storage: Vec::new(),
            df_id_gen: Generator::new(),
            cf_id_gen: Generator::new(),
        };
        proof {
            assert(r.reg() =~= Seq::<(u64, SpecEntry)>::empty());
        }
        r
    }

    /// Allocate a fresh dataflow id.
    pub fn alloc_dfid(&mut self) -> (r: u64)
        requires
            old(self).spec_df_counter() < u64::MAX,
        ensures
            r == old(self).spec_df_counter(),
            final(self).spec_df_counter() == old(self).spec_df_counter() + 1,
            final(self).reg() == old(self).reg(),
            final(self).spec_cf_counter() == old(self).spec_cf_counter(),
    {
        self.df_id_gen.get()
    }

    /// Create a coroutine with a fresh id for the given block and context;
    /// the caller enqueues it on the pool.
    pub fn spawn(&mut self, block: u64, ctx: u64) -> (r: Coroutine)
        requires
            old(self).spec_cf_counter() < u64::MAX,
        ensures
            r == (Coroutine { id: old(self).spec_cf_counter(), block, ctx }),
            final(self).spec_cf_counter() == old(self).spec_cf_counter() + 1,
            final(self).reg() == old(self).reg(),
            final(self).spec_df_counter() == old(self).spec_df_counter(),
    {
        Coroutine { id: self.cf_id_gen.get(), block, ctx }
    }

    fn find_index(&self, dfid: u64) -> (r: Option<usize>)
        ensures
            match r {
                Some(i) => i < self.reg().len() && self.reg()[i as int].0 == dfid && reg_find(
                    self.reg(),
                    dfid,
                ) == Some(self.reg()[i as int].1) && (forall|x: int|
                    0 <= x < i ==> self.reg()[x].0 != dfid),
                None => reg_find(self.reg(), dfid) is None,
            },
    {
        let ghost rg = self.reg();
        proof {
            assert(rg.skip(0) =~= rg);
        }
        let mut i: usize = 0;
        while i < self.storage.len()
            invariant
                i <= self.storage@.len(),
                rg == self.reg(),
                rg.len() == self.storage@.len(),
                reg_find(rg, dfid) == reg_find(rg.skip(i as int), dfid),
                forall|x: int| 0 <= x < i ==> rg[x].0 != dfid,
            decreases self.storage@.len() - i,
        {
            proof {
                assert(rg[i as int] == (self.storage@[i as int].0, self.storage@[i as int].1@));
                assert(rg.skip(i as int)[0] == rg[i as int]);
                assert(rg.skip(i as int).drop_first() =~= rg.skip(i + 1));
            }
            if self.storage[i].0 == dfid {
                return Some(i);
            }
            i = i + 1;
        }
        proof {
            assert(rg.skip(rg.len() as int) =~= Seq::<(u64, SpecEntry)>::empty());
        }
        None
    }

    /// Look up `dfid`. If its value is there, hand it out. Otherwise park
    /// `current` on the entry — creating it empty if absent — and return
    /// nothing: the caller must yield with `WAIT`, and will be re-spawned
    /// by the submit that fills the entry.
    pub fn request(&mut self, dfid: u64, current: Coroutine) -> (r: Option<Df>)
        ensures
            ({
                let sr = spec_request(old(self).reg(), dfid, current);
                final(self).reg() == sr.0 && r == sr.1
            }),
            final(self).spec_df_counter() == old(self).spec_df_counter(),
            final(self).spec_cf_counter() == old(self).spec_cf_counter(),
    {
        let ghost rg0 = self.reg();
        match self.find_index(dfid) {
            Some(i) => {
                match self.storage[i].1.df {
                    Some(d) => Some(d),
                    None => {
                        let ghost vpre = self.storage@;
                        let ghost epre = self.storage@[i as int].1@;
                        self.storage[i].1.waiting.push(current);
                        proof {
                            lemma_reg_put_position(rg0, dfid, i as int, SpecEntry {
                                df: None,
                                waiting: epre.waiting.push(current),
                            });
                            assert(self.reg() =~= rg0.update(i as int, (dfid, SpecEntry {
                                df: None,
                                waiting: epre.waiting.push(current),
                            })));
                        }
                        None
                    },
                }
            },
            None => {
                let mut waiting: Vec<Coroutine> = Vec::new();
                waiting.push(current);
                let ghost vpre = self.storage@;
                self.storage.push((dfid, Entry { df: None, waiting }));
                proof {
                    assert(waiting@ =~= seq![current]);
                    assert forall|x: int| 0 <= x < rg0.len() implies rg0[x].0 != dfid by {
                        if rg0[x].0 == dfid {
                            let z = lemma_reg_find_position_of(rg0, x);
                        }
                    }
                    lemma_reg_put_append(rg0, dfid, SpecEntry {
                        df: None,
                        waiting: seq![current],
                    });
                    assert(self.reg() =~= rg0.push((dfid, SpecEntry {
                        df: None,
                        waiting: seq![current],
                    })));
                }
                None
            },
        }
    }

    /// Peek at an entry without parking: the slow path used by emitted code
    /// inside expressions, where suspension is not structurally possible.
    /// The caller spins until a value appears.
    pub fn poll(&self, dfid: u64) -> (r: Option<Df>)
        ensures
            r == match reg_find(self.reg(), dfid) {
                Some(e) => e.df,
                None => None::<Df>,
            },
    {
        match self.find_index(dfid) {
            Some(i) => self.storage[i].1.df,
            None => None,
        }
    }

    /// Publish a value: fill the entry for `d.id` and hand back every
    /// coroutine that was parked on it, for the caller to re-spawn. The
    /// entry must not be filled yet — a second submit of the same id
    /// returns the fatal `DoubleAssign` violation and changes nothing.
    pub fn submit(&mut self, d: Df) -> (r: core::result::Result<Vec<Coroutine>, RuntimeError>)
        ensures
            ({
                let sr = spec_submit(old(self).reg(), d);
                match (r, sr) {
                    (core::result::Result::Ok(resumed), core::result::Result::Ok(p)) => {
                        final(self).reg() == p.0 && resumed@ == p.1
                    },
                    (core::result::Result::Err(e), core::result::Result::Err(se)) => e == se
                        && final(self).reg() == old(self).reg(),
                    _ => false,
                }
            }),
            final(self).spec_df_counter() == old(self).spec_df_counter(),
            final(self).spec_cf_counter() == old(self).spec_cf_counter(),
    {
        let ghost rg0 = self.reg();
        match self.find_index(d.id) {
            Some(i) => {
                if self.storage[i].1.df.is_some() {
                    return Err(RuntimeError::DoubleAssign(d.id));
                }
                let ghost epre = self.storage@[i as int].1@;
                let mut entry = Entry { df: Some(d), waiting: Vec::new() };
                core::mem::swap(&mut self.storage[i].1, &mut entry);
                proof {
                    lemma_reg_put_position(rg0, d.id, i as int, SpecEntry {
                        df: Some(d),
                        waiting: Seq::empty(),
                    });
                    assert(self.reg() =~= rg0.update(i as int, (d.id, SpecEntry {
                        df: Some(d),
                        waiting: Seq::empty(),
                    })));
                    assert(entry@.waiting == epre.waiting);
                }
                Ok(entry.waiting)
            },
            None => {
                let ghost vpre = self.storage@;
                self.storage.push((d.id, Entry { df: Some(d), waiting: Vec::new() }));
                proof {
                    assert forall|x: int| 0 <= x < rg0.len() implies rg0[x].0 != d.id by {
                        if rg0[x].0 == d.id {
                            let z = lemma_reg_find_position_of(rg0, x);
                        }
                    }
                    lemma_reg_put_append(rg0, d.id, SpecEntry {
                        df: Some(d),
                        waiting: Seq::empty(),
                    });
                    assert(self.reg() =~= rg0.push((d.id, SpecEntry {
                        df: Some(d),
                        waiting: Seq::empty(),
                    })));
                }
                let empty: Vec<Coroutine> = Vec::new();
                proof {
                    assert(empty@ =~= Seq::<Coroutine>::empty());
                }
                Ok(empty)
            },
        }
    }
}

pub proof fn lemma_reg_put_position(s: SpecRegistry, k: u64, j: int, e: SpecEntry)
    requires
        0 <= j < s.len(),
        forall|x: int| 0 <= x < j ==> s[x].0 != k,
        s[j].0 == k,
    ensures
        reg_put(s, k, e) == s.update(j, (k, e)),
    decreases j,
{
    if j == 0 {
        assert(reg_put(s, k, e) =~= s.update(0, (k, e)));
    } else {
        let t = s.drop_first();
        assert(forall|x: int| 0 <= x < j - 1 ==> #[trigger] t[x].0 != k);
        assert(t[j - 1].0 == k);
        lemma_reg_put_position(t, k, j - 1, e);
        assert(reg_put(s, k, e) =~= seq![s[0]] + t.update(j - 1, (k, e)));
        assert(seq![s[0]] + t.update(j - 1, (k, e)) =~= s.update(j, (k, e)));
    }
}

pub proof fn lemma_reg_put_append(s: SpecRegistry, k: u64, e: SpecEntry)
    requires
        forall|x: int| 0 <= x < s.len() ==> s[x].0 != k,
    ensures
        reg_put(s, k, e) == s.push((k, e)),
    decreases s.len(),
{
    if s.len() == 0 {
        assert(reg_put(s, k, e) =~= s.push((k, e)));
    } else {
        let t = s.drop_first();
        assert(forall|x: int| 0 <= x < t.len() ==> #[trigger] t[x].0 != k);
        lemma_reg_put_append(t, k, e);
        assert(reg_put(s, k, e) =~= seq![s[0]] + t.push((k, e)));
        assert(seq![s[0]] + t.push((k, e)) =~= s.push((k, e)));
    }
}

pub proof fn lemma_reg_put_find(s: SpecRegistry, k: u64, e: SpecEntry, k2: u64)
    ensures
        reg_find(reg_put(s, k, e), k2) == if k2 == k {
            Some(e)
        } else {
            reg_find(s, k2)
        },
    decreases s.len(),
{
    if s.len() == 0 {
        assert(reg_put(s, k, e) =~= seq![(k, e)]);
        assert(reg_put(s, k, e)[0] == (k, e));
        assert(reg_put(s, k, e).drop_first() =~= Seq::<(u64, SpecEntry)>::empty());
        if k2 != k {
            assert(reg_find(reg_put(s, k, e), k2) == reg_find(
                reg_put(s, k, e).drop_first(),
                k2,
            ));
        }
    } else if s[0].0 == k {
        assert(reg_put(s, k, e)[0] == (k, e));
        assert(reg_put(s, k, e).drop_first() =~= s.drop_first());
    } else {
        lemma_reg_put_find(s.drop_first(), k, e, k2);
        assert(reg_put(s, k, e)[0] == s[0]);
        assert(reg_put(s, k, e).drop_first() =~= reg_put(s.drop_first(), k, e));
    }
}

/// Single assignment: once an id is filled by a successful submit, any
/// further submit of the same id is the `DoubleAssign` violation.
pub proof fn lemma_single_assignment(s: SpecRegistry, d1: Df, d2: Df)
    requires
        d2.id == d1.id,
        spec_submit(s, d1) is Ok,
    ensures
        spec_submit((spec_submit(s, d1)->Ok_0).0, d2) == core::result::Result::<
            (SpecRegistry, Seq<Coroutine>),
            RuntimeError,
        >::Err(RuntimeError::DoubleAssign(d2.id)),
{
    let s2 = (spec_submit(s, d1)->Ok_0).0;
    lemma_reg_put_find(s, d1.id, SpecEntry { df: Some(d1), waiting: Seq::empty() }, d2.id);
}

/// A submit resumes exactly the coroutines parked on its id, and leaves
/// nobody parked there: after it, the entry is filled and its waiter list
/// is empty.
pub proof fn lemma_submit_resumes_waiters(s: SpecRegistry, d: Df)
    requires
        spec_submit(s, d) is Ok,
    ensures
        ({
            let p = spec_submit(s, d)->Ok_0;
            &&& (match reg_find(s, d.id) {
                Some(e) => p.1 == e.waiting,
                None => p.1 == Seq::<Coroutine>::empty(),
            })
            &&& reg_find(p.0, d.id) == Some(SpecEntry { df: Some(d), waiting: Seq::empty() })
        }),
{
    lemma_reg_put_find(s, d.id, SpecEntry { df: Some(d), waiting: Seq::empty() }, d.id);
}

// ---------------------------------------------------------------------------
// Liveness of the registry.
// ---------------------------------------------------------------------------

/// Fold a sequence of submits over the registry, collecting every resumed
/// coroutine; `None` when some submit is a violation.
pub open spec fn spec_submit_all(s: SpecRegistry, ds: Seq<Df>, i: int) -> Option<
    (SpecRegistry, Seq<Coroutine>),
>
    decreases ds.len() - i,
{
    if i < 0 || i >= ds.len() {
        Some((s, Seq::empty()))
    } else {
        match spec_submit(s, ds[i]) {
            Err(_) => None,
            Ok(p) => match spec_submit_all(p.0, ds, i + 1) {
                None => None,
                Some(q) => Some((q.0, p.1 + q.1)),
            },
        }
    }
}

pub open spec fn all_filled(s: SpecRegistry) -> bool {
    forall|i: int| 0 <= i < s.len() ==> (#[trigger] s[i].1.df) is Some
}

/// Runtime liveness at the registry: if every id whose entry is still
/// empty is eventually submitted — each exactly once, and none that is
/// already filled — then every submit succeeds, afterwards every entry is
/// filled with an empty waiter list, and every coroutine that was parked
/// anywhere has been handed back for re-spawning along the way.
pub proof fn lemma_runtime_liveness(s: SpecRegistry, ds: Seq<Df>)
    requires
        reg_wf(s),
        forall|x: int, y: int| 0 <= x < y < ds.len() ==> ds[x].id != ds[y].id,
        forall|x: int|
            0 <= x < ds.len() ==> (match reg_find(s, (#[trigger] ds[x]).id) {
                Some(e) => e.df is None,
                None => true,
            }),
        forall|i: int|
            0 <= i < s.len() && (#[trigger] s[i].1.df) is None ==> exists|x: int|
                0 <= x < ds.len() && ds[x].id == s[i].0,
    ensures
        spec_submit_all(s, ds, 0) matches Some(p) && all_filled(p.0) && (forall|i: int, w: int|
            0 <= i < s.len() && 0 <= w < s[i].1.waiting.len() ==> p.1.contains(
                #[trigger] s[i].1.waiting[w],
            )),
{
    lemma_runtime_liveness_aux(s, ds, 0);
}

proof fn lemma_runtime_liveness_aux(s: SpecRegistry, ds: Seq<Df>, i: int)
    requires
        reg_wf(s),
        0 <= i <= ds.len(),
        forall|x: int, y: int| i <= x < y < ds.len() ==> ds[x].id != ds[y].id,
        forall|x: int|
            i <= x < ds.len() ==> (match reg_find(s, (#[trigger] ds[x]).id) {
                Some(e) => e.df is None,
                None => true,
            }),
        forall|j: int|
            0 <= j < s.len() && (#[trigger] s[j].1.df) is None ==> exists|x: int|
                i <= x < ds.len() && ds[x].id == s[j].0,
    ensures
        spec_submit_all(s, ds, i) matches Some(p) && all_filled(p.0) && (forall|j: int, w: int|
            0 <= j < s.len() && 0 <= w < s[j].1.waiting.len() ==> p.1.contains(
                #[trigger] s[j].1.waiting[w],
            )),
    decreases ds.len() - i,
{
    if i >= ds.len() {
        assert forall|j: int| 0 <= j < s.len() implies (#[trigger] s[j].1.df) is Some by {
            if s[j].1.df is None {
                let x = choose|x: int| i <= x < ds.len() && ds[x].id == s[j].0;
                assert(false);
            }
        }
        assert forall|j: int, w: int|
            0 <= j < s.len() && 0 <= w < s[j].1.waiting.len() implies Seq::<
            Coroutine,
        >::empty().contains(#[trigger] s[j].1.waiting[w]) by {
            assert(s[j].1.df is Some);
            assert(s[j].1.waiting.len() == 0);
        }
    } else {
        let d = ds[i];
        let fe = SpecEntry { df: Some(d), waiting: Seq::empty() };
        match spec_submit(s, d) {
            Err(_) => {
                assert(false);
            },
            Ok(p1) => {
                let s2 = p1.0;
                let resumed = p1.1;
                assert forall|k2: u64| true implies reg_find(s2, k2) == (if k2 == d.id {
                    Some(fe)
                } else {
                    reg_find(s, k2)
                }) by {
                    lemma_reg_put_find(s, d.id, fe, k2);
                }
                // the new registry is well-formed and keeps all old positions
                // except the filled one
                assert(reg_wf(s2)) by {
                    match reg_find(s, d.id) {
                        Some(_) => {
                            let j = lemma_reg_find_position(s, d.id);
                            lemma_reg_put_position(s, d.id, j, fe);
                            assert forall|x: int, y: int|
                                0 <= x < y < s2.len() implies s2[x].0 != s2[y].0 by {}
                        },
                        None => {
                            assert forall|x: int| 0 <= x < s.len() implies s[x].0 != d.id by {
                                if s[x].0 == d.id {
                                    let j = lemma_reg_find_position_of(s, x);
                                }
                            }
                            lemma_reg_put_append(s, d.id, fe);
                        },
                    }
                }
                // positions other than the filled one are unchanged
                assert forall|j: int| 0 <= j < s.len() && s[j].0 != d.id implies j < s2.len()
                    && s2[j] == s[j] by {
                    match reg_find(s, d.id) {
                        Some(_) => {
                            let jd = lemma_reg_find_position(s, d.id);
                            lemma_reg_put_position(s, d.id, jd, fe);
                        },
                        None => {
                            assert forall|x: int| 0 <= x < s.len() implies s[x].0 != d.id by {
                                if s[x].0 == d.id {
                                    let z = lemma_reg_find_position_of(s, x);
                                }
                            }
                            lemma_reg_put_append(s, d.id, fe);
                        },
                    }
                }
                assert forall|j: int|
                    0 <= j < s2.len() && (#[trigger] s2[j].1.df) is None implies exists|x: int|
                    i + 1 <= x < ds.len() && ds[x].id == s2[j].0 by {
                    assert(reg_find(s2, s2[j].0) == (if s2[j].0 == d.id {
                        Some(fe)
                    } else {
                        reg_find(s, s2[j].0)
                    }));
                    assert(s2[j].0 != d.id) by {
                        if s2[j].0 == d.id {
                            let z = lemma_reg_find_position_of(s2, j);
                            let jd2 = lemma_reg_find_position(s2, d.id);
                            assert(reg_find(s2, d.id) == Some(fe));
                            assert(s2[jd2].1 == fe);
                            if jd2 != j {
                                assert(s2[jd2].0 == s2[j].0);
                            }
                        }
                    }
                    assert(j < s.len() && s2[j] == s[j]) by {
                        match reg_find(s, d.id) {
                            Some(_) => {
                                let jd = lemma_reg_find_position(s, d.id);
                                lemma_reg_put_position(s, d.id, jd, fe);
                                assert(s2.len() == s.len());
                                if s[j].0 == d.id {
                                    assert(jd == j || s[jd].0 == s[j].0);
                                }
                            },
                            None => {
                                assert forall|x: int| 0 <= x < s.len() implies s[x].0
                                    != d.id by {
                                    if s[x].0 == d.id {
                                        let z = lemma_reg_find_position_of(s, x);
                                    }
                                }
                                lemma_reg_put_append(s, d.id, fe);
                                assert(j < s.len());
                            },
                        }
                    }
                    let x = choose|x: int| i <= x < ds.len() && ds[x].id == s[j].0;
                    assert(x != i);
                    assert(i + 1 <= x < ds.len() && ds[x].id == s2[j].0);
                }
                assert forall|x: int|
                    i + 1 <= x < ds.len() implies (match reg_find(s2, (#[trigger] ds[x]).id) {
                    Some(e) => e.df is None,
                    None => true,
                }) by {
                    assert(ds[x].id != d.id);
                }
                lemma_runtime_liveness_aux(s2, ds, i + 1);
                match spec_submit_all(s2, ds, i + 1) {
                    None => { assert(false); },
                    Some(q) => {
                        assert forall|j: int, w: int|
                            0 <= j < s.len() && 0 <= w < s[j].1.waiting.len() implies (resumed
                            + q.1).contains(#[trigger] s[j].1.waiting[w]) by {
                            if s[j].0 == d.id {
                                // this entry's waiters are resumed now
                                let z = lemma_reg_find_position_of(s, j);
                                let jj = lemma_reg_find_position(s, d.id);
                                assert(jj == j) by {
                                    if jj != j {
                                        assert(s[jj].0 == s[j].0);
                                    }
                                }
                                assert(resumed == s[j].1.waiting);
                                assert((resumed + q.1)[w] == s[j].1.waiting[w]);
                            } else {
                                // this entry is untouched; induction covers it
                                match reg_find(s, d.id) {
                                    Some(_) => {
                                        let jd = lemma_reg_find_position(s, d.id);
                                        lemma_reg_put_position(s, d.id, jd, fe);
                                        assert(s2[j] == s[j]);
                                    },
                                    None => {
                                        assert forall|x: int|
                                            0 <= x < s.len() implies s[x].0 != d.id by {
                                            if s[x].0 == d.id {
                                                let z = lemma_reg_find_position_of(s, x);
                                            }
                                        }
                                        lemma_reg_put_append(s, d.id, fe);
                                        assert(s2[j] == s[j]);
                                    },
                                }
                                assert(q.1.contains(s[j].1.waiting[w]));
                                let x = choose|x: int|
                                    0 <= x < q.1.len() && q.1[x] == s[j].1.waiting[w];
                                assert((resumed + q.1)[resumed.len() + x] == s[j].1.waiting[w]);
                            }
                        }
                        assert(spec_submit_all(s, ds, i) == Some((q.0, resumed + q.1)));
                    },
                }
            },
        }
    }
}

/// In a registry without duplicate ids, a found id has a position.
pub proof fn lemma_reg_find_position(s: SpecRegistry, k: u64) -> (j: int)
    requires
        reg_find(s, k) is Some,
    ensures
        0 <= j < s.len(),
        s[j].0 == k,
        reg_find(s, k) == Some(s[j].1),
        forall|x: int| 0 <= x < j ==> s[x].0 != k,
    decreases s.len(),
{
    assert(s.len() > 0);
    if s[0].0 == k {
        0
    } else {
        let j = lemma_reg_find_position(s.drop_first(), k);
        assert(s.drop_first()[j] == s[j + 1]);
        assert forall|x: int| 0 <= x < j + 1 implies s[x].0 != k by {
            if x > 0 {
                assert(s.drop_first()[x - 1] == s[x]);
            }
        }
        j + 1
    }
}

/// An id that occurs at some position is found.
pub proof fn lemma_reg_find_position_of(s: SpecRegistry, x: int) -> (j: int)
    requires
        0 <= x < s.len(),
    ensures
        reg_find(s, s[x].0) is Some,
    decreases s.len(),
{
    if s[0].0 == s[x].0 {
        0
    } else {
        assert(x > 0);
        assert(s.drop_first()[x - 1] == s[x]);
        lemma_reg_find_position_of(s.drop_first(), x - 1)
    }
}

} // verus!
