use crush_core::command::{CrushCommand, NativeOp};
use crush_core::errors::{CrushError, RecvTimeoutError};
use crush_core::record::{Struct, StructHeap, StructReader};
use crush_core::scope::{Scope, ScopeData, ScopeTree, TypeDict};
use crush_core::value::{Value, ValueType};

fn as_int(v: &Value) -> i128 {
    match v {
        Value::Integer(i) => *i,
        _ => panic!("expected an integer value"),
    }
}

#[test]
fn set_resolves_to_declaring_depth() {
    let mut t = ScopeTree::new();
    let s0 = t.attach(ScopeData::new(None, None, false));
    t.redeclare(s0, "x", Value::Integer(1));
    let s1 = t.create_child(s0, s0, false);
    let s2 = t.create_child(s1, s1, false);
    assert!(t.set(s2, "x", Value::Integer(42)).is_ok());
    // the declaring scope, two levels up, received the assignment
    let got = t.remove(s0, "x").expect("x is declared at the root");
    assert_eq!(as_int(&got), 42);
    // and it is gone everywhere: nothing on the chain declares x any more
    assert!(t.remove(s2, "x").is_none());
}

#[test]
fn set_of_undeclared_name_is_unknown_variable() {
    let mut t = ScopeTree::new();
    let s0 = t.attach(ScopeData::new(None, None, false));
    let s1 = t.create_child(s0, s0, false);
    assert_eq!(t.set(s1, "nope", Value::Bool(true)), Err(CrushError::UnknownVariable));
}

#[test]
fn set_with_changed_type_fails_and_keeps_old_value() {
    let mut t = ScopeTree::new();
    let s0 = t.attach(ScopeData::new(None, None, false));
    t.redeclare(s0, "x", Value::Integer(7));
    assert_eq!(
        t.set(s0, "x", Value::String("seven".to_string())),
        Err(CrushError::TypeMismatch)
    );
    let old = t.remove(s0, "x").expect("x still declared");
    assert_eq!(as_int(&old), 7);
}

#[test]
fn set_in_readonly_scope_fails() {
    let mut t = ScopeTree::new();
    let s0 = t.attach(ScopeData::new(None, None, false));
    t.redeclare(s0, "x", Value::Integer(7));
    t.readonly(s0);
    assert_eq!(t.set(s0, "x", Value::Integer(8)), Err(CrushError::ReadOnlyViolation));
    assert!(t.remove(s0, "x").is_none());
}

#[test]
fn break_without_loop_frame_changes_nothing() {
    let mut t = ScopeTree::new();
    let s0 = t.attach(ScopeData::new(None, None, false));
    let s1 = t.create_child(s0, s0, false);
    let s2 = t.create_child(s1, s1, false);
    assert!(!t.do_break(s2));
    assert!(!t.is_stopped(s0));
    assert!(!t.is_stopped(s1));
    assert!(!t.is_stopped(s2));
}

#[test]
fn break_marks_every_frame_up_to_the_loop() {
    let mut t = ScopeTree::new();
    let s0 = t.attach(ScopeData::new(None, None, true));
    let s1 = t.create_child(s0, s0, false);
    let s2 = t.create_child(s1, s1, false);
    assert!(t.do_break(s2));
    assert!(t.is_stopped(s2));
    assert!(t.is_stopped(s1));
    assert!(t.is_stopped(s0));
}

#[test]
fn break_on_loop_frame_stops_only_it() {
    let mut t = ScopeTree::new();
    let s0 = t.attach(ScopeData::new(None, None, false));
    let s1 = t.attach(ScopeData::new(Some(s0), Some(s0), true));
    assert!(t.do_break(s1));
    assert!(t.is_stopped(s1));
    assert!(!t.is_stopped(s0));
}

#[test]
fn continue_spares_the_loop_frame() {
    let mut t = ScopeTree::new();
    let s0 = t.attach(ScopeData::new(None, None, true));
    let s1 = t.create_child(s0, s0, false);
    assert!(t.do_continue(s1));
    assert!(t.is_stopped(s1));
    assert!(!t.is_stopped(s0));
}

#[test]
fn continue_without_loop_frame_returns_false() {
    let mut t = ScopeTree::new();
    let s0 = t.attach(ScopeData::new(None, None, false));
    assert!(!t.do_continue(s0));
    assert!(!t.is_stopped(s0));
}

#[test]
fn break_in_readonly_scope_returns_false() {
    let mut t = ScopeTree::new();
    let s0 = t.attach(ScopeData::new(None, None, true));
    let s1 = t.create_child(s0, s0, false);
    t.readonly(s1);
    assert!(!t.do_break(s1));
    assert!(!t.is_stopped(s0));
    assert!(!t.is_stopped(s1));
}

#[test]
fn dump_overlays_nearer_declarations() {
    let mut t = ScopeTree::new();
    let s0 = t.attach(ScopeData::new(None, None, false));
    t.redeclare(s0, "x", Value::Integer(1));
    t.redeclare(s0, "y", Value::Bool(true));
    let s1 = t.create_child(s0, s0, false);
    t.redeclare(s1, "x", Value::String("shadow".to_string()));
    let mut d = TypeDict::new();
    t.dump(s1, &mut d);
    assert_eq!(d.len(), 2);
    assert_eq!(d.get("x"), Some(ValueType::String));
    assert_eq!(d.get("y"), Some(ValueType::Bool));
    assert_eq!(d.get("z"), None);
}

#[test]
fn scope_uses_registers_imported_scope() {
    let mut node = ScopeData::new(None, None, false);
    node.uses(&Scope { id: 0 });
    assert_eq!(node.uses.len(), 1);
    let mut t = ScopeTree::new();
    let s0 = t.attach(ScopeData::new(None, None, false));
    let s1 = t.attach(ScopeData::new(None, None, false));
    t.uses(s1, &s0);
}

#[test]
fn record_set_then_get_and_overwrite() {
    let mut h = StructHeap::new();
    let s = Struct::new(Vec::new(), None, &mut h);
    assert!(s.set(&mut h, "a", Value::Integer(1)).is_none());
    assert_eq!(as_int(&s.get(&h, "a").unwrap()), 1);
    let prev = s.set(&mut h, "a", Value::Integer(2)).expect("a was present");
    assert_eq!(as_int(&prev), 1);
    assert_eq!(as_int(&s.get(&h, "a").unwrap()), 2);
    assert_eq!(s.local_elements(&h).len(), 1);
}

#[test]
fn record_delegates_to_parent_and_shadows_on_set() {
    let mut h = StructHeap::new();
    let p = Struct::new(vec![("x".to_string(), Value::Integer(5))], None, &mut h);
    let c = Struct::new(Vec::new(), Some(p), &mut h);
    assert_eq!(as_int(&c.get(&h, "x").unwrap()), 5);
    c.set(&mut h, "x", Value::Integer(9));
    assert_eq!(as_int(&c.get(&h, "x").unwrap()), 9);
    assert_eq!(as_int(&p.get(&h, "x").unwrap()), 5);
}

#[test]
fn record_get_of_missing_field_is_none() {
    let mut h = StructHeap::new();
    let s = Struct::new(Vec::new(), None, &mut h);
    assert!(s.get(&h, "missing").is_none());
}

#[test]
fn record_stream_yields_rows_then_end_of_stream() {
    let mut h = StructHeap::new();
    let s = Struct::new(
        vec![
            ("a".to_string(), Value::Integer(1)),
            ("b".to_string(), Value::Integer(2)),
        ],
        None,
        &mut h,
    );
    let mut r = StructReader::new(s, &h);
    let row1 = r.read().expect("first row");
    assert_eq!(row1.cells.len(), 2);
    match &row1.cells[0] {
        Value::String(n) => assert_eq!(n, "a"),
        _ => panic!("name column should be a string"),
    }
    assert_eq!(as_int(&row1.cells[1]), 1);
    let row2 = r.read().expect("second row");
    match &row2.cells[0] {
        Value::String(n) => assert_eq!(n, "b"),
        _ => panic!("name column should be a string"),
    }
    assert_eq!(as_int(&row2.cells[1]), 2);
    assert!(matches!(r.read(), Err(CrushError::EndOfStream)));
}

#[test]
fn record_stream_timed_read_reports_disconnected() {
    let mut h = StructHeap::new();
    let s = Struct::new(vec![("a".to_string(), Value::Integer(1))], None, &mut h);
    let mut r = StructReader::new(s, &h);
    let row = r.read_timeout(chrono::Duration::seconds(5)).expect("one row left");
    assert_eq!(row.cells.len(), 2);
    assert!(matches!(
        r.read_timeout(chrono::Duration::seconds(5)),
        Err(RecvTimeoutError::Disconnected)
    ));
}

#[test]
fn record_stream_types_name_two_columns() {
    let mut h = StructHeap::new();
    let s = Struct::new(Vec::new(), None, &mut h);
    let r = StructReader::new(s, &h);
    let cols = r.types();
    assert_eq!(cols.len(), 2);
    assert_eq!(cols[0].name, "name");
    assert_eq!(cols[0].cell_type, ValueType::String);
    assert_eq!(cols[1].name, "value");
    assert_eq!(cols[1].cell_type, ValueType::Any);
}

#[test]
fn record_keys_and_map_merge_the_chain() {
    let mut h = StructHeap::new();
    let p = Struct::new(
        vec![
            ("x".to_string(), Value::Integer(1)),
            ("y".to_string(), Value::Integer(2)),
        ],
        None,
        &mut h,
    );
    let c = Struct::new(vec![("x".to_string(), Value::Integer(10))], Some(p), &mut h);
    let keys = c.keys(&h);
    assert_eq!(keys, vec!["x".to_string(), "y".to_string()]);
    let m = c.map(&h);
    assert_eq!(m.len(), 2);
    assert_eq!(m[0].0, "x");
    assert_eq!(as_int(&m[0].1), 10);
    assert_eq!(m[1].0, "y");
    assert_eq!(as_int(&m[1].1), 2);
}

#[test]
fn record_local_projections_follow_declaration_order() {
    let mut h = StructHeap::new();
    let s = Struct::new(
        vec![
            ("a".to_string(), Value::Integer(1)),
            ("b".to_string(), Value::Bool(true)),
        ],
        None,
        &mut h,
    );
    let sig = s.local_signature(&h);
    assert_eq!(sig.len(), 2);
    assert_eq!(sig[0].name, "a");
    assert_eq!(sig[0].cell_type, ValueType::Integer);
    assert_eq!(sig[1].name, "b");
    assert_eq!(sig[1].cell_type, ValueType::Bool);
    let row = s.to_row(&h);
    assert_eq!(row.cells.len(), 2);
    assert_eq!(as_int(&row.cells[0]), 1);
    let v = s.to_vec(&h);
    assert_eq!(v.len(), 2);
    assert!(matches!(v[1], Value::Bool(true)));
}

#[test]
fn record_from_vec_zips_values_against_schema() {
    let mut h = StructHeap::new();
    let types = vec![
        crush_core::value::ColumnType::new("k", ValueType::Integer),
        crush_core::value::ColumnType::new("v", ValueType::Integer),
    ];
    let s = Struct::from_vec(vec![Value::Integer(3), Value::Integer(4)], types, &mut h);
    assert_eq!(as_int(&s.get(&h, "k").unwrap()), 3);
    assert_eq!(as_int(&s.get(&h, "v").unwrap()), 4);
}

#[test]
fn record_materialize_copies_cells_and_keeps_parent() {
    let mut h = StructHeap::new();
    let p = Struct::new(vec![("x".to_string(), Value::Integer(5))], None, &mut h);
    let s = Struct::new(vec![("a".to_string(), Value::Integer(1))], Some(p), &mut h);
    let copy = s.materialize(&mut h);
    copy.set(&mut h, "a", Value::Integer(99));
    assert_eq!(as_int(&s.get(&h, "a").unwrap()), 1);
    assert_eq!(as_int(&copy.get(&h, "a").unwrap()), 99);
    assert_eq!(as_int(&copy.get(&h, "x").unwrap()), 5);
}

#[test]
fn record_set_parent_rejects_exactly_cycles() {
    let mut h = StructHeap::new();
    let a = Struct::new(Vec::new(), None, &mut h);
    let b = Struct::new(vec![("x".to_string(), Value::Integer(5))], None, &mut h);
    // re-targeting to a later, unrelated record is allowed
    assert!(a.set_parent(&mut h, Some(b)).is_ok());
    assert_eq!(as_int(&a.get(&h, "x").unwrap()), 5);
    // closing the loop is a cycle and is rejected, leaving delegation intact
    assert_eq!(b.set_parent(&mut h, Some(a)), Err(CrushError::Generic));
    assert_eq!(as_int(&a.get(&h, "x").unwrap()), 5);
    // a record can never become its own parent
    assert_eq!(a.set_parent(&mut h, Some(a)), Err(CrushError::Generic));
    // clearing the edge re-opens the re-target
    assert!(a.set_parent(&mut h, None).is_ok());
    assert!(a.get(&h, "x").is_none());
    assert!(b.set_parent(&mut h, Some(a)).is_ok());
}

#[test]
fn record_equality_is_shallow_and_local() {
    let mut h = StructHeap::new();
    let p = Struct::new(vec![("z".to_string(), Value::Integer(0))], None, &mut h);
    let a = Struct::new(
        vec![("x".to_string(), Value::Integer(1))],
        Some(p),
        &mut h,
    );
    // same local fields, no parent: still equal, since ancestors are not compared
    let b = Struct::new(vec![("x".to_string(), Value::Integer(1))], None, &mut h);
    assert!(a.equals(&b, &h));
    // a different value breaks equality
    let c = Struct::new(vec![("x".to_string(), Value::Integer(2))], None, &mut h);
    assert!(!a.equals(&c, &h));
    // a different field name breaks equality
    let d = Struct::new(vec![("y".to_string(), Value::Integer(1))], None, &mut h);
    assert!(!a.equals(&d, &h));
}

#[test]
fn record_equality_never_equates_command_cells() {
    let mut h = StructHeap::new();
    let cmd = Value::Command(CrushCommand::command(NativeOp::Pass, false));
    let a = Struct::new(vec![("f".to_string(), cmd)], None, &mut h);
    let cmd2 = Value::Command(CrushCommand::command(NativeOp::Pass, false));
    let b = Struct::new(vec![("f".to_string(), cmd2)], None, &mut h);
    assert!(!a.equals(&b, &h));
    assert!(!a.equals(&a, &h));
}

#[test]
fn record_hash_ignores_names_but_sees_values_and_parent() {
    let mut h = StructHeap::new();
    let a = Struct::new(vec![("x".to_string(), Value::Integer(1))], None, &mut h);
    let b = Struct::new(vec![("y".to_string(), Value::Integer(1))], None, &mut h);
    // field names do not enter the hash: same values, same hash
    assert_eq!(a.hash_code(&h), b.hash_code(&h));
    // a different value changes the hash
    let c = Struct::new(vec![("x".to_string(), Value::Integer(2))], None, &mut h);
    assert_ne!(a.hash_code(&h), c.hash_code(&h));
    // the parent contributes recursively
    let child = Struct::new(vec![("x".to_string(), Value::Integer(1))], Some(a), &mut h);
    assert_ne!(a.hash_code(&h), child.hash_code(&h));
    // equal records hash equally, though the hash is coarser than equality
    assert!(!a.equals(&b, &h));
    assert_eq!(a.hash_code(&h), b.hash_code(&h));
}
