//! The decision core of the model runner.
//!
//! Running a model alternates native calls with decisions: which operation
//! is ready, which to run next, what argument layout the native call takes,
//! what to do with its status and results. All those decisions live here,
//! over plain values; performing the call itself — loading the library,
//! resolving the symbol, pushing the arguments through the foreign call
//! interface — is the unverified shell's job.

use vstd::prelude::*;

use crate::model::{LibraryCallOperation, Operation, OperationType, SpecValue, Type, Value};
use crate::names::{spec_find, spec_put};

verus! {

broadcast use vstd::std_specs::vec::group_vec_axioms, vstd::seq::group_seq_axioms;

/// A failure while compiling or running a model.
#[derive(Clone, Debug)]
pub enum ComputeError {
    /// A named variable has no declared type.
    MissingType(String),
    /// A value of this type cannot cross the native boundary.
    UnsupportedType(String),
    /// An input variable has no value yet.
    MissingValue(String),
    /// The native call reported a non-zero status.
    CallFailed(i32),
}

/// The low-level classification of one native argument.
#[derive(Clone, Copy, Debug, PartialEq, Eq, Structural)]
pub enum FfiType {
    /// An output: passed as a pointer to be filled.
    Pointer,
    /// A 64-bit signed integer input.
    SInt64,
    /// A 64-bit float input.
    Float64,
    /// A (pointer, length) pair for a byte-slice input.
    SliceStruct,
}

// ---------------------------------------------------------------------------
// Variable values.
// ---------------------------------------------------------------------------

/// The store of produced variable values, keyed by name.
pub struct Storage {
    inner: Vec<(String, Value)>,
}

impl View for Storage {
    type V = Seq<(Seq<char>, SpecValue)>;

    closed spec fn view(&self) -> Seq<(Seq<char>, SpecValue)> {
        self.inner@.map_values(|p: (String, Value)| (p.0@, p.1@))
    }
}

impl Storage {
    pub fn new() -> (r: Self)
        ensures
            r@ == Seq::<(Seq<char>, SpecValue)>::empty(),
    {
        let r = Self { inner: Vec::new() };
        proof {
            assert(r@ =~= Seq::<(Seq<char>, SpecValue)>::empty());
        }
        r
    }

    /// Bind `key` to `value`, replacing an existing binding in place.
    pub fn insert(&mut self, key: String, value: Value)
        ensures
            final(self)@ == spec_put(old(self)@, key@, value@),
    {
        let ghost v0 = self@;
        let mut j: usize = 0;
        while j < self.inner.len()
            invariant
                j <= self.inner@.len(),
                self@ == v0,
                old(self)@ == v0,
                v0.len() == self.inner@.len(),
                forall|x: int| 0 <= x < j ==> v0[x].0 != key@,
            decreases self.inner@.len() - j,
        {
            proof {
                assert(v0[j as int] == (self.inner@[j as int].0@, self.inner@[j as int].1@));
            }
            if crate::names::name_eq(&self.inner[j].0, &key) {
                let ghost n0 = key@;
                let ghost vv2 = value@;
                let ghost vpre = self.inner@;
                self.inner.set(j, (key, value));
                proof {
                    crate::names::lemma_spec_put_position(v0, n0, vv2, j as int);
                    assert forall|x: int|
                        0 <= x < self@.len() implies self@[x] == v0.update(
                        j as int,
                        (n0, vv2),
                    )[x] by {
                        assert(self.inner@[x] == vpre.update(
                            j as int,
                            (self.inner@[j as int].0, self.inner@[j as int].1),
                        )[x]);
                        if x != j {
                            assert(vpre.update(
                                j as int,
                                (self.inner@[j as int].0, self.inner@[j as int].1),
                            )[x] == vpre[x]);
                            assert(self@[x] == (self.inner@[x].0@, self.inner@[x].1@));
                            assert(v0[x] == (vpre[x].0@, vpre[x].1@));
                            assert(v0.update(j as int, (n0, vv2))[x] == v0[x]);
                        } else {
                            assert(self@[x] == (self.inner@[x].0@, self.inner@[x].1@));
                            assert(v0.update(j as int, (n0, vv2))[x] == (n0, vv2));
                        }
                    }
                    assert(self@ =~= v0.update(j as int, (n0, vv2)));
                }
                return ;
            }
            j = j + 1;
        }
        let ghost n0 = key@;
        let ghost vv2 = value@;
        self.inner.push((key, value));
        proof {
            crate::names::lemma_spec_put_position(v0, n0, vv2, v0.len() as int);
            assert(self@ =~= v0.push((n0, vv2)));
        }
    }

    /// The value bound to `key`, if any.
    pub fn get(&self, key: &String) -> (r: Option<&Value>)
        ensures
            match r {
                Some(v) => spec_find(self@, key@) == Some(v@),
                None => spec_find(self@, key@) is None,
            },
    {
        let ghost v0 = self@;
        proof {
            assert(v0.skip(0) =~= v0);
        }
        let mut i: usize = 0;
        while i < self.inner.len()
            invariant
                i <= self.inner@.len(),
                self@ == v0,
                v0.len() == self.inner@.len(),
                spec_find(v0, key@) == spec_find(v0.skip(i as int), key@),
            decreases self.inner@.len() - i,
        {
            proof {
                assert(v0[i as int] == (self.inner@[i as int].0@, self.inner@[i as int].1@));
                assert(v0.skip(i as int)[0] == v0[i as int]);
                assert(v0.skip(i as int).drop_first() =~= v0.skip(i + 1));
            }
            if crate::names::name_eq(&self.inner[i].0, key) {
                return Some(&self.inner[i].1);
            }
            i = i + 1;
        }
        proof {
            assert(v0.skip(v0.len() as int) =~= Seq::<(Seq<char>, SpecValue)>::empty());
        }
        None
    }

    /// Whether `key` has a value.
    pub fn contains(&self, key: &String) -> (r: bool)
        ensures
            r == (spec_find(self@, key@) is Some),
    {
        match self.get(key) {
            Some(_) => true,
            None => false,
        }
    }
}

// ---------------------------------------------------------------------------
// Planning a native call.
// ---------------------------------------------------------------------------

/// The compiled form of a library call, short of the foreign-call handle:
/// the resolved symbol name, the argument layout (outputs first, as
/// pointers, then the inputs by value), and the variable types.
#[derive(Debug)]
pub struct CompiledLibraryCallOperation {
    pub library: String,
    pub symbol: String,
    pub inputs: Vec<String>,
    pub outputs: Vec<String>,
    pub arg_types: Vec<FfiType>,
    pub input_types: Vec<Type>,
    pub output_types: Vec<Type>,
}

/// The declared types of the model's variables, keyed by name.
pub struct TypeTable {
    inner: Vec<(String, Type)>,
}

impl View for TypeTable {
    type V = Seq<(Seq<char>, Type)>;

    closed spec fn view(&self) -> Seq<(Seq<char>, Type)> {
        self.inner@.map_values(|p: (String, Type)| (p.0@, p.1))
    }
}

impl TypeTable {
    pub fn new() -> (r: Self)
        ensures
            r@ == Seq::<(Seq<char>, Type)>::empty(),
    {
        let r = Self { inner: Vec::new() };
        proof {
            assert(r@ =~= Seq::<(Seq<char>, Type)>::empty());
        }
        r
    }

    /// Declare a variable's type, replacing an earlier declaration.
    pub fn insert(&mut self, key: String, ty: Type)
        ensures
            final(self)@ == spec_put(old(self)@, key@, ty),
    {
        let ghost v0 = self@;
        let mut j: usize = 0;
        while j < self.inner.len()
            invariant
                j <= self.inner@.len(),
                self@ == v0,
                old(self)@ == v0,
                v0.len() == self.inner@.len(),
                forall|x: int| 0 <= x < j ==> v0[x].0 != key@,
            decreases self.inner@.len() - j,
        {
            proof {
                assert(v0[j as int] == (self.inner@[j as int].0@, self.inner@[j as int].1));
            }
            if crate::names::name_eq(&self.inner[j].0, &key) {
                let ghost n0 = key@;
                let ghost vpre = self.inner@;
                self.inner.set(j, (key, ty));
                proof {
                    crate::names::lemma_spec_put_position(v0, n0, ty, j as int);
                    assert forall|x: int|
                        0 <= x < self@.len() implies self@[x] == v0.update(
                        j as int,
                        (n0, ty),
                    )[x] by {
                        assert(self.inner@[x] == vpre.update(
                            j as int,
                            (self.inner@[j as int].0, self.inner@[j as int].1),
                        )[x]);
                        if x != j {
                            assert(vpre.update(
                                j as int,
                                (self.inner@[j as int].0, self.inner@[j as int].1),
                            )[x] == vpre[x]);
                            assert(self@[x] == (self.inner@[x].0@, self.inner@[x].1));
                            assert(v0[x] == (vpre[x].0@, vpre[x].1));
                            assert(v0.update(j as int, (n0, ty))[x] == v0[x]);
                        } else {
                            assert(self@[x] == (self.inner@[x].0@, self.inner@[x].1));
                            assert(v0.update(j as int, (n0, ty))[x] == (n0, ty));
                        }
                    }
                    assert(self@ =~= v0.update(j as int, (n0, ty)));
                }
                return ;
            }
            j = j + 1;
        }
        let ghost n0 = key@;
        self.inner.push((key, ty));
        proof {
            crate::names::lemma_spec_put_position(v0, n0, ty, v0.len() as int);
            assert(self@ =~= v0.push((n0, ty)));
        }
    }

    /// The declared type of a variable, if any.
    pub fn get(&self, key: &String) -> (r: Option<Type>)
        ensures
            r == spec_find(self@, key@),
    {
        let ghost v0 = self@;
        proof {
            assert(v0.skip(0) =~= v0);
        }
        let mut i: usize = 0;
        while i < self.inner.len()
            invariant
                i <= self.inner@.len(),
                self@ == v0,
                v0.len() == self.inner@.len(),
                spec_find(v0, key@) == spec_find(v0.skip(i as int), key@),
            decreases self.inner@.len() - i,
        {
            proof {
                assert(v0[i as int] == (self.inner@[i as int].0@, self.inner@[i as int].1));
                assert(v0.skip(i as int)[0] == v0[i as int]);
                assert(v0.skip(i as int).drop_first() =~= v0.skip(i + 1));
            }
            if crate::names::name_eq(&self.inner[i].0, key) {
                return Some(self.inner[i].1);
            }
            i = i + 1;
        }
        proof {
            assert(v0.skip(v0.len() as int) =~= Seq::<(Seq<char>, Type)>::empty());
        }
        None
    }
}

/// The native classification of an output variable: every supported type
/// is passed as a pointer to be filled; text cannot cross the boundary.
pub open spec fn spec_out_ffi(t: Type) -> Option<FfiType> {
    match t {
        Type::Text => None,
        _ => Some(FfiType::Pointer),
    }
}

/// The native classification of an input variable.
pub open spec fn spec_in_ffi(t: Type) -> Option<FfiType> {
    match t {
        Type::Integer => Some(FfiType::SInt64),
        Type::Float => Some(FfiType::Float64),
        Type::Slice => Some(FfiType::SliceStruct),
        Type::Text => None,
    }
}

/// Look up each name's declared type, mapping it through `f`-style native
/// classification; `types` is the declared-variable table.
pub open spec fn spec_plan_names(
    types: Seq<(Seq<char>, Type)>,
    names: Seq<Seq<char>>,
    out_position: bool,
    i: int,
) -> core::result::Result<(Seq<FfiType>, Seq<Type>), Seq<char>>
    decreases names.len() - i,
{
    if i < 0 || i >= names.len() {
        Ok((Seq::empty(), Seq::empty()))
    } else {
        match spec_find(types, names[i]) {
            None => Err(names[i]),
            Some(t) => {
                let f = if out_position {
                    spec_out_ffi(t)
                } else {
                    spec_in_ffi(t)
                };
                match f {
                    None => Err(names[i]),
                    Some(ft) => match spec_plan_names(types, names, out_position, i + 1) {
                        Err(e) => Err(e),
                        Ok(rest) => Ok((seq![ft] + rest.0, seq![t] + rest.1)),
                    },
                }
            },
        }
    }
}

/// Resolve the declared types of the given names into a native argument
/// layout; fails with the offending name if a type is missing, or if a
/// value of that type cannot cross the boundary.
fn plan_names(
    types: &TypeTable,
    names: &Vec<String>,
    out_position: bool,
) -> (r: core::result::Result<(Vec<FfiType>, Vec<Type>), ComputeError>)
    ensures
        ({
            let sr = spec_plan_names(types@, names.deep_view(), out_position, 0);
            match (r, sr) {
                (core::result::Result::Ok(p), core::result::Result::Ok(sp)) => p.0@ == sp.0
                    && p.1@ == sp.1,
                (core::result::Result::Err(e), core::result::Result::Err(n)) => match e {
                    ComputeError::MissingType(m) => m@ == n,
                    ComputeError::UnsupportedType(m) => m@ == n,
                    _ => false,
                },
                _ => false,
            }
        }),
{
    let mut fts: Vec<FfiType> = Vec::new();
    let mut tys: Vec<Type> = Vec::new();
    let ghost nv = names.deep_view();
    let n = names.len();
    proof {
        assert(nv.len() == names@.len());
    }
    let mut i: usize = 0;
    while i < n
        invariant
            i <= n,
            n == names@.len(),
            nv.len() == n,
            nv == names.deep_view(),
            match spec_plan_names(types@, nv, out_position, i as int) {
                core::result::Result::Ok(rest) => spec_plan_names(types@, nv, out_position, 0)
                    == core::result::Result::<(Seq<FfiType>, Seq<Type>), Seq<char>>::Ok(
                    (fts@ + rest.0, tys@ + rest.1),
                ),
                core::result::Result::Err(e) => spec_plan_names(types@, nv, out_position, 0)
                    == core::result::Result::<(Seq<FfiType>, Seq<Type>), Seq<char>>::Err(e),
            },
        decreases n - i,
    {
        proof {
            assert(nv[i as int] == names@[i as int]@);
        }
        match types.get(&names[i]) {
            None => {
                return Err(ComputeError::MissingType(names[i].clone()));
            },
            Some(t) => {
                let ft: FfiType;
                if out_position {
                    match t {
                        Type::Text => {
                            return Err(ComputeError::UnsupportedType(names[i].clone()));
                        },
                        _ => {
                            ft = FfiType::Pointer;
                        },
                    }
                } else {
                    match t {
                        Type::Integer => {
                            ft = FfiType::SInt64;
                        },
                        Type::Float => {
                            ft = FfiType::Float64;
                        },
                        Type::Slice => {
                            ft = FfiType::SliceStruct;
                        },
                        Type::Text => {
                            return Err(ComputeError::UnsupportedType(names[i].clone()));
                        },
                    }
                }
                let ghost fpre = fts@;
                let ghost tpre = tys@;
                fts.push(ft);
                tys.push(t);
                proof {
                    match spec_plan_names(types@, nv, out_position, i + 1) {
                        core::result::Result::Ok(rest2) => {
                            assert((fts@ + rest2.0) =~= fpre + (seq![ft] + rest2.0));
                            assert((tys@ + rest2.1) =~= tpre + (seq![t] + rest2.1));
                        },
                        core::result::Result::Err(_) => {},
                    }
                }
            },
        }
        i = i + 1;
    }
    proof {
        assert(fts@ + Seq::<FfiType>::empty() =~= fts@);
        assert(tys@ + Seq::<Type>::empty() =~= tys@);
    }
    Ok((fts, tys))
}

/// Compile a library call against the declared variable types: the native
/// argument layout is every output as a pointer, then every input by
/// value.
pub fn compile_library_call(
    op: &LibraryCallOperation,
    inputs: Vec<String>,
    outputs: Vec<String>,
    types: &TypeTable,
) -> (r: core::result::Result<CompiledLibraryCallOperation, ComputeError>)
    ensures
        ({
            let so = spec_plan_names(types@, outputs.deep_view(), true, 0);
            let si = spec_plan_names(types@, inputs.deep_view(), false, 0);
            match r {
                core::result::Result::Ok(c) => so matches Ok(po) && si matches Ok(pi) && {
                    &&& c.library@ == op.library@
                    &&& c.symbol@ == op.symbol@
                    &&& c.inputs.deep_view() == inputs.deep_view()
                    &&& c.outputs.deep_view() == outputs.deep_view()
                    &&& c.arg_types@ == po.0 + pi.0
                    &&& c.output_types@ == po.1
                    &&& c.input_types@ == pi.1
                },
                core::result::Result::Err(_) => so is Err || si is Err,
            }
        }),
{
    let (out_fts, out_tys) = match plan_names(types, &outputs, true) {
        core::result::Result::Ok(p) => p,
        core::result::Result::Err(e) => {
            return Err(e);
        },
    };
    let (in_fts, in_tys) = match plan_names(types, &inputs, false) {
        core::result::Result::Ok(p) => p,
        core::result::Result::Err(e) => {
            return Err(e);
        },
    };
    let mut arg_types = out_fts;
    let ghost apre = arg_types@;
    let mut k: usize = 0;
    while k < in_fts.len()
        invariant
            k <= in_fts@.len(),
            arg_types@ == apre + in_fts@.subrange(0, k as int),
        decreases in_fts@.len() - k,
    {
        arg_types.push(in_fts[k]);
        proof {
            assert(arg_types@ =~= apre + in_fts@.subrange(0, k + 1));
        }
        k = k + 1;
    }
    proof {
        assert(in_fts@.subrange(0, in_fts@.len() as int) =~= in_fts@);
    }
    Ok(
        CompiledLibraryCallOperation {
            library: op.library.clone(),
            symbol: op.symbol.clone(),
            inputs,
            outputs,
            arg_types,
            input_types: in_tys,
            output_types: out_tys,
        },
    )
}

// ---------------------------------------------------------------------------
// Scheduling.
// ---------------------------------------------------------------------------

pub open spec fn spec_all_present(s: Seq<(Seq<char>, SpecValue)>, names: Seq<Seq<char>>) -> bool {
    forall|i: int| 0 <= i < names.len() ==> spec_find(s, #[trigger] names[i]) is Some
}

impl CompiledLibraryCallOperation {
    /// An operation is ready when every input it reads has a value.
    pub fn ready(&self, store: &Storage) -> (r: bool)
        ensures
            r == spec_all_present(store@, self.inputs.deep_view()),
    {
        let ghost nv = self.inputs.deep_view();
        let mut i: usize = 0;
        while i < self.inputs.len()
            invariant
                i <= self.inputs@.len(),
                nv.len() == self.inputs@.len(),
                nv == self.inputs.deep_view(),
                forall|x: int| 0 <= x < i ==> spec_find(store@, #[trigger] nv[x]) is Some,
            decreases self.inputs@.len() - i,
        {
            proof {
                assert(nv[i as int] == self.inputs@[i as int]@);
            }
            if !store.contains(&self.inputs[i]) {
                return false;
            }
            i = i + 1;
        }
        true
    }
}

/// The next step of the run loop.
#[derive(Debug)]
pub enum RunAction {
    /// Every requested output has a value.
    Finished,
    /// Run the operation at this position of the remaining list.
    Execute(usize),
    /// Outputs are missing but no remaining operation is ready.
    Stuck,
}

/// Whether `i` is the first ready operation.
pub open spec fn spec_first_ready(
    ops: Seq<CompiledLibraryCallOperation>,
    s: Seq<(Seq<char>, SpecValue)>,
    i: int,
) -> bool {
    &&& 0 <= i < ops.len()
    &&& spec_all_present(s, ops[i].inputs.deep_view())
    &&& forall|x: int| 0 <= x < i ==> !spec_all_present(s, (#[trigger] ops[x]).inputs.deep_view())
}

/// Decide the next step: finish when every requested output is present;
/// otherwise run the first ready remaining operation; otherwise the model
/// is stuck.
pub fn next_action(
    ops: &Vec<CompiledLibraryCallOperation>,
    store: &Storage,
    outputs: &Vec<String>,
) -> (r: RunAction)
    ensures
        match r {
            RunAction::Finished => spec_all_present(store@, outputs.deep_view()),
            RunAction::Execute(i) => !spec_all_present(store@, outputs.deep_view())
                && spec_first_ready(ops@, store@, i as int),
            RunAction::Stuck => !spec_all_present(store@, outputs.deep_view()) && (forall|x: int|
                0 <= x < ops@.len() ==> !spec_all_present(
                    store@,
                    (#[trigger] ops@[x]).inputs.deep_view(),
                )),
        },
{
    let ghost ov = outputs.deep_view();
    let mut all: bool = true;
    let mut i: usize = 0;
    while i < outputs.len()
        invariant
            i <= outputs@.len(),
            ov.len() == outputs@.len(),
            ov == outputs.deep_view(),
            all == (forall|x: int| 0 <= x < i ==> spec_find(store@, #[trigger] ov[x]) is Some),
        decreases outputs@.len() - i,
    {
        proof {
            assert(ov[i as int] == outputs@[i as int]@);
        }
        if !store.contains(&outputs[i]) {
            all = false;
        }
        i = i + 1;
    }
    if all {
        return RunAction::Finished;
    }
    let mut j: usize = 0;
    while j < ops.len()
        invariant
            j <= ops@.len(),
            !spec_all_present(store@, outputs.deep_view()),
            forall|x: int|
                0 <= x < j ==> !spec_all_present(store@, (#[trigger] ops@[x]).inputs.deep_view()),
        decreases ops@.len() - j,
    {
        if ops[j].ready(store) {
            return RunAction::Execute(j);
        }
        j = j + 1;
    }
    RunAction::Stuck
}

/// The zero value an output slot starts from, by its declared type.
pub open spec fn spec_default_value(t: Type) -> SpecValue {
    match t {
        Type::Integer => SpecValue::Integer(0),
        Type::Float => SpecValue::Float(0),
        Type::Text => SpecValue::Text(Seq::empty()),
        Type::Slice => SpecValue::Slice(Seq::empty()),
    }
}

/// Fresh output slots for the native call to fill, one per output type.
pub fn default_outputs(tys: &Vec<Type>) -> (r: Vec<Value>)
    ensures
        r@.len() == tys@.len(),
        forall|i: int| 0 <= i < tys@.len() ==> (#[trigger] r@[i])@ == spec_default_value(tys@[i]),
{
    let mut r: Vec<Value> = Vec::new();
    let mut i: usize = 0;
    while i < tys.len()
        invariant
            i <= tys@.len(),
            r@.len() == i,
            forall|x: int| 0 <= x < i ==> (#[trigger] r@[x])@ == spec_default_value(tys@[x]),
        decreases tys@.len() - i,
    {
        let v = match tys[i] {
            Type::Integer => Value::Integer(0),
            Type::Float => Value::Float(0),
            Type::Text => Value::Text(String::new()),
            Type::Slice => Value::Slice(Vec::new()),
        };
        proof {
            assert(v@ == spec_default_value(tys@[i as int]));
        }
        r.push(v);
        i = i + 1;
    }
    r
}

/// A zero native status is success; anything else fails the run.
pub fn check_status(ret: i32) -> (r: core::result::Result<(), ComputeError>)
    ensures
        ret == 0 <==> r is Ok,
        r matches core::result::Result::Err(e) ==> e matches ComputeError::CallFailed(code)
            && code == ret,
{
    if ret == 0 {
        Ok(())
    } else {
        Err(ComputeError::CallFailed(ret))
    }
}

/// Store each produced value under its output name, in order.
pub open spec fn spec_commit(
    s: Seq<(Seq<char>, SpecValue)>,
    names: Seq<Seq<char>>,
    values: Seq<SpecValue>,
    i: int,
) -> Seq<(Seq<char>, SpecValue)>
    decreases names.len() - i,
{
    if i < 0 || i >= names.len() || i >= values.len() {
        s
    } else {
        spec_commit(spec_put(s, names[i], values[i]), names, values, i + 1)
    }
}

/// Record the outputs a finished call produced.
pub fn commit_outputs(store: &mut Storage, names: &Vec<String>, values: Vec<Value>)
    requires
        names@.len() == values@.len(),
    ensures
        final(store)@ == spec_commit(old(store)@, names.deep_view(), values.deep_view(), 0),
{
    let ghost nv = names.deep_view();
    let ghost vv = values.deep_view();
    let ghost s0 = store@;
    let mut values = values;
    let mut i: usize = 0;
    while i < names.len()
        invariant
            i <= names@.len(),
            nv.len() == names@.len(),
            nv == names.deep_view(),
            vv.len() == nv.len(),
            values@.len() == nv.len() - i,
            forall|x: int| 0 <= x < values@.len() ==> (#[trigger] values@[x])@ == vv[i + x],
            spec_commit(store@, nv, vv, i as int) == spec_commit(s0, nv, vv, 0),
        decreases names@.len() - i,
    {
        let ghost wpre = values@;
        let v = values.remove(0);
        proof {
            assert(nv[i as int] == names@[i as int]@);
            assert(v@ == vv[i as int]);
            assert(values@ =~= wpre.drop_first());
        }
        store.insert(names[i].clone(), v);
        i = i + 1;
    }
}


/// The values of the named inputs, in order; the first name without a
/// value, otherwise.
pub open spec fn spec_gather(
    s: Seq<(Seq<char>, SpecValue)>,
    names: Seq<Seq<char>>,
    i: int,
) -> core::result::Result<Seq<SpecValue>, Seq<char>>
    decreases names.len() - i,
{
    if i < 0 || i >= names.len() {
        Ok(Seq::empty())
    } else {
        match spec_find(s, names[i]) {
            None => Err(names[i]),
            Some(v) => match spec_gather(s, names, i + 1) {
                Err(e) => Err(e),
                Ok(rest) => Ok(seq![v] + rest),
            },
        }
    }
}

/// Collect the values of an operation's inputs from the store, in order;
/// an input without a value fails with `MissingValue`.
pub fn gather_inputs(store: &Storage, names: &Vec<String>) -> (r: core::result::Result<
    Vec<Value>,
    ComputeError,
>)
    ensures
        ({
            let sr = spec_gather(store@, names.deep_view(), 0);
            match (r, sr) {
                (core::result::Result::Ok(vs), core::result::Result::Ok(sv)) => vs.deep_view()
                    == sv,
                (core::result::Result::Err(e), core::result::Result::Err(n)) => e matches
                    ComputeError::MissingValue(m) && m@ == n,
                _ => false,
            }
        }),
{
    let mut out: Vec<Value> = Vec::new();
    let ghost nv = names.deep_view();
    let n = names.len();
    proof {
        assert(nv.len() == names@.len());
    }
    let mut i: usize = 0;
    while i < n
        invariant
            i <= n,
            n == names@.len(),
            nv.len() == n,
            nv == names.deep_view(),
            match spec_gather(store@, nv, i as int) {
                core::result::Result::Ok(rest) => spec_gather(store@, nv, 0)
                    == core::result::Result::<Seq<SpecValue>, Seq<char>>::Ok(
                    out.deep_view() + rest,
                ),
                core::result::Result::Err(e) => spec_gather(store@, nv, 0)
                    == core::result::Result::<Seq<SpecValue>, Seq<char>>::Err(e),
            },
        decreases n - i,
    {
        proof {
            assert(nv[i as int] == names@[i as int]@);
        }
        match store.get(&names[i]) {
            None => {
                return Err(ComputeError::MissingValue(names[i].clone()));
            },
            Some(v) => {
                let ghost opre = out.deep_view();
                let copy = v.duplicate();
                out.push(copy);
                proof {
                    assert(out.deep_view() =~= opre.push(v@));
                    match spec_gather(store@, nv, i + 1) {
                        core::result::Result::Ok(rest2) => {
                            assert(out.deep_view() + rest2 =~= opre + (seq![v@] + rest2));
                        },
                        core::result::Result::Err(_) => {},
                    }
                }
            },
        }
        i = i + 1;
    }
    proof {
        assert(out.deep_view() + Seq::<SpecValue>::empty() =~= out.deep_view());
    }
    Ok(out)
}

} // verus!
