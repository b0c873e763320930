//! The computational-model description: named, typed variables and named
//! operations that read some variables and produce others through a call
//! into a native library. The values themselves are plain data; a float is
//! carried as its raw bit pattern.

use vstd::prelude::*;

verus! {

#[derive(Clone, Copy, Debug, PartialEq, Eq, Structural)]
pub enum Type {
    Integer,
    Float,
    Text,
    Slice,
}

#[derive(Clone, Copy, Debug)]
pub struct Variable {
    pub ty: Type,
}

/// A call into a native library: which library, which symbol.
#[derive(Clone, Debug)]
pub struct LibraryCallOperation {
    pub library: String,
    pub symbol: String,
}

#[verifier::ext_equal]
pub struct SpecLibraryCall {
    pub library: Seq<char>,
    pub symbol: Seq<char>,
}

impl View for LibraryCallOperation {
    type V = SpecLibraryCall;

    open spec fn view(&self) -> SpecLibraryCall {
        SpecLibraryCall { library: self.library@, symbol: self.symbol@ }
    }
}

#[derive(Debug)]
pub enum OperationType {
    LibraryCall(LibraryCallOperation),
}

/// An operation: the variables it reads, the variables it fills, and how
/// it is carried out.
#[derive(Debug)]
pub struct Operation {
    pub inputs: Vec<String>,
    pub outputs: Vec<String>,
    pub ty: OperationType,
}

/// A whole model: typed variables and operations, each under a name.
#[derive(Debug)]
pub struct ComputationalModel {
    pub variables: Vec<(String, Variable)>,
    pub operations: Vec<(String, Operation)>,
}

/// A runtime value. A float is carried as its raw bits; the native caller
/// reinterprets them.
#[derive(Debug)]
pub enum Value {
    Integer(i64),
    Float(u64),
    Text(String),
    Slice(Vec<u8>),
}

#[verifier::ext_equal]
pub enum SpecValue {
    Integer(i64),
    Float(u64),
    Text(Seq<char>),
    Slice(Seq<u8>),
}

impl View for Value {
    type V = SpecValue;

    open spec fn view(&self) -> SpecValue {
        match self {
            Value::Integer(v) => SpecValue::Integer(*v),
            Value::Float(v) => SpecValue::Float(*v),
            Value::Text(s) => SpecValue::Text(s@),
            Value::Slice(b) => SpecValue::Slice(b@),
        }
    }
}

impl DeepView for Value {
    type V = SpecValue;

    open spec fn deep_view(&self) -> SpecValue {
        self@
    }
}

impl Value {
    /// A copy with the same contents.
    pub fn duplicate(&self) -> (r: Value)
        ensures
            r@ == self@,
    {
        match self {
            Value::Integer(v) => Value::Integer(*v),
            Value::Float(v) => Value::Float(*v),
            Value::Text(s) => Value::Text(s.clone()),
            Value::Slice(b) => {
                let mut out: Vec<u8> = Vec::new();
                let mut i: usize = 0;
                while i < b.len()
                    invariant
                        i <= b@.len(),
                        out@ =~= b@.subrange(0, i as int),
                    decreases b@.len() - i,
                {
                    out.push(b[i]);
                    proof {
                        assert(out@ =~= b@.subrange(0, i + 1));
                    }
                    i = i + 1;
                }
                proof {
                    assert(out@ =~= b@);
                }
                Value::Slice(out)
            },
        }
    }
}

} // verus!
