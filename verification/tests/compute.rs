use lunar::compute::{
    check_status, commit_outputs, compile_library_call, default_outputs, next_action,
    ComputeError, FfiType, RunAction, Storage, TypeTable,
};
use lunar::model::{LibraryCallOperation, Type, Value};

fn names(list: &[&str]) -> Vec<String> {
    list.iter().map(|s| (*s).to_owned()).collect()
}

fn table(entries: &[(&str, Type)]) -> TypeTable {
    let mut t = TypeTable::new();
    for (n, ty) in entries {
        t.insert((*n).to_owned(), *ty);
    }
    t
}

fn op(library: &str, symbol: &str) -> LibraryCallOperation {
    LibraryCallOperation { library: library.to_owned(), symbol: symbol.to_owned() }
}

#[test]
fn compile_layout_outputs_first_then_inputs() {
    let types = table(&[("x", Type::Integer), ("y", Type::Float), ("z", Type::Slice)]);
    let compiled = compile_library_call(
        &op("m", "run"),
        names(&["x", "y", "z"]),
        names(&["x"]),
        &types,
    )
    .unwrap();
    assert_eq!(compiled.symbol, "run");
    assert_eq!(compiled.library, "m");
    assert_eq!(
        compiled.arg_types,
        vec![FfiType::Pointer, FfiType::SInt64, FfiType::Float64, FfiType::SliceStruct]
    );
    assert_eq!(compiled.output_types, vec![Type::Integer]);
    assert_eq!(compiled.input_types, vec![Type::Integer, Type::Float, Type::Slice]);
}

#[test]
fn compile_missing_type_is_reported() {
    let types = table(&[("x", Type::Integer)]);
    let err =
        compile_library_call(&op("m", "run"), names(&["ghostly"]), names(&["x"]), &types)
            .unwrap_err();
    assert!(matches!(err, ComputeError::MissingType(n) if n == "ghostly"));
}

#[test]
fn compile_text_output_is_unsupported() {
    let types = table(&[("t", Type::Text)]);
    let err = compile_library_call(&op("m", "run"), names(&[]), names(&["t"]), &types)
        .unwrap_err();
    assert!(matches!(err, ComputeError::UnsupportedType(n) if n == "t"));
}

#[test]
fn readiness_and_scheduling() {
    let types = table(&[("a", Type::Integer), ("b", Type::Integer), ("c", Type::Integer)]);
    // two operations: a -> b, then b -> c
    let first =
        compile_library_call(&op("m", "f"), names(&["a"]), names(&["b"]), &types).unwrap();
    let second =
        compile_library_call(&op("m", "g"), names(&["b"]), names(&["c"]), &types).unwrap();
    let ops = vec![second, first];
    let mut store = Storage::new();
    let outputs = names(&["c"]);
    // nothing present: stuck
    assert!(matches!(next_action(&ops, &store, &outputs), RunAction::Stuck));
    // with the seed present, the first ready operation is the a -> b one
    store.insert("a".to_owned(), Value::Integer(3));
    match next_action(&ops, &store, &outputs) {
        RunAction::Execute(i) => assert_eq!(i, 1),
        other => panic!("unexpected action {:?}", other),
    }
    // once the chain has run, the requested output ends the loop
    store.insert("b".to_owned(), Value::Integer(4));
    match next_action(&ops, &store, &outputs) {
        RunAction::Execute(i) => assert_eq!(i, 0),
        other => panic!("unexpected action {:?}", other),
    }
    store.insert("c".to_owned(), Value::Integer(5));
    assert!(matches!(next_action(&ops, &store, &outputs), RunAction::Finished));
}

#[test]
fn default_output_slots_are_zero() {
    let slots = default_outputs(&vec![Type::Integer, Type::Float, Type::Slice]);
    assert!(matches!(slots[0], Value::Integer(0)));
    assert!(matches!(slots[1], Value::Float(0)));
    assert!(matches!(&slots[2], Value::Slice(b) if b.is_empty()));
}

#[test]
fn status_zero_is_success() {
    assert!(check_status(0).is_ok());
    let err = check_status(7).unwrap_err();
    assert!(matches!(err, ComputeError::CallFailed(7)));
}

#[test]
fn committed_outputs_are_stored() {
    let mut store = Storage::new();
    commit_outputs(
        &mut store,
        &names(&["x", "y"]),
        vec![Value::Integer(1), Value::Integer(2)],
    );
    assert!(matches!(store.get(&"x".to_owned()), Some(Value::Integer(1))));
    assert!(matches!(store.get(&"y".to_owned()), Some(Value::Integer(2))));
    assert!(store.get(&"z".to_owned()).is_none());
    // a later value for the same name replaces the earlier one
    store.insert("x".to_owned(), Value::Integer(9));
    assert!(matches!(store.get(&"x".to_owned()), Some(Value::Integer(9))));
}

#[test]
fn value_duplicate_preserves_contents() {
    let v = Value::Slice(vec![1, 2, 3]);
    match v.duplicate() {
        Value::Slice(b) => assert_eq!(b, vec![1, 2, 3]),
        other => panic!("unexpected value {:?}", other),
    }
    match Value::Text("hi".to_owned()).duplicate() {
        Value::Text(s) => assert_eq!(s, "hi"),
        other => panic!("unexpected value {:?}", other),
    }
}

#[test]
fn gather_inputs_reports_the_first_missing_value() {
    let mut store = Storage::new();
    store.insert("a".to_owned(), Value::Integer(1));
    let err =
        lunar::compute::gather_inputs(&store, &names(&["a", "b", "c"])).unwrap_err();
    assert!(matches!(err, ComputeError::MissingValue(n) if n == "b"));
    let got = lunar::compute::gather_inputs(&store, &names(&["a", "a"])).unwrap();
    assert_eq!(got.len(), 2);
    assert!(matches!(got[0], Value::Integer(1)));
}
