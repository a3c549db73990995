use crush_core::command::{
    Argument, ArgumentDefinition, ArgumentVector, CrushCommand, ExecutionContext, Job, NativeOp,
    This, ValueDefinition,
};
use crush_core::errors::CrushError;
use crush_core::scope::ScopeData;
use crush_core::value::{Value, ValueType};
use crush_core::vm::Vm;

fn as_int(v: &Value) -> i128 {
    match v {
        Value::Integer(i) => *i,
        _ => panic!("expected an integer value"),
    }
}

fn stage(command: CrushCommand) -> Job {
    Job { command, arguments: Vec::new() }
}

#[test]
fn single_stage_identity_pipeline_copies_rows() {
    let mut vm = Vm::new();
    let root = vm.scopes.attach(ScopeData::new(None, None, false));
    let body = CrushCommand::closure(
        vec![stage(CrushCommand::command(NativeOp::Pass, false))],
        &root,
    );
    let (in_s, in_r) = vm.streams.pipe();
    vm.streams.send(in_s, Value::Integer(1));
    vm.streams.send(in_s, Value::Integer(2));
    let (out_s, _out_r) = vm.streams.pipe();
    let ctx = ExecutionContext {
        input: in_r,
        output: out_s,
        arguments: Vec::new(),
        env: root,
        this: None,
    };
    body.invoke(ctx, &mut vm, 100).expect("pipeline runs");
    let rows = vm.streams.sent_rows(out_s);
    assert_eq!(rows.len(), 2);
    assert_eq!(as_int(&rows[0]), 1);
    assert_eq!(as_int(&rows[1]), 2);
}

#[test]
fn stopped_pipeline_skips_later_stages_and_succeeds() {
    let mut vm = Vm::new();
    // the invoking environment is a loop frame, so a break issued inside the
    // closure's child scope is absorbed there and flags the chain stopped
    let caller = vm.scopes.attach(ScopeData::new(None, None, true));
    let marker = Job {
        command: CrushCommand::command(NativeOp::Echo, false),
        arguments: vec![ArgumentDefinition {
            name: None,
            value: ValueDefinition::Literal(Value::Integer(9)),
        }],
    };
    let body = CrushCommand::closure(
        vec![
            stage(CrushCommand::command(NativeOp::Pass, false)),
            stage(CrushCommand::command(NativeOp::Break, false)),
            marker,
        ],
        &caller,
    );
    let (in_s, in_r) = vm.streams.pipe();
    vm.streams.send(in_s, Value::Integer(1));
    let (out_s, _out_r) = vm.streams.pipe();
    let ctx = ExecutionContext {
        input: in_r,
        output: out_s,
        arguments: Vec::new(),
        env: caller,
        this: None,
    };
    body.invoke(ctx, &mut vm, 100).expect("a stopped pipeline still reports success");
    // the final stage never ran: nothing reached the real output
    assert_eq!(vm.streams.sent_rows(out_s).len(), 0);
    // the break propagated out to the enclosing loop frame
    assert!(vm.scopes.is_stopped(caller));
}

#[test]
fn empty_closure_body_is_rejected() {
    let mut vm = Vm::new();
    let root = vm.scopes.attach(ScopeData::new(None, None, false));
    let body = CrushCommand::closure(Vec::new(), &root);
    let (in_s, in_r) = vm.streams.pipe();
    let (out_s, _o) = vm.streams.pipe();
    let _ = in_s;
    let ctx = ExecutionContext {
        input: in_r,
        output: out_s,
        arguments: Vec::new(),
        env: root,
        this: None,
    };
    assert_eq!(body.invoke(ctx, &mut vm, 100), Err(CrushError::EmptyBody));
}

#[test]
fn exhausted_budget_is_a_generic_error() {
    let mut vm = Vm::new();
    let root = vm.scopes.attach(ScopeData::new(None, None, false));
    let cmd = CrushCommand::command(NativeOp::Echo, false);
    let (_in_s, in_r) = vm.streams.pipe();
    let (out_s, _o) = vm.streams.pipe();
    let ctx = ExecutionContext {
        input: in_r,
        output: out_s,
        arguments: Vec::new(),
        env: root,
        this: None,
    };
    assert_eq!(cmd.invoke(ctx, &mut vm, 0), Err(CrushError::Generic));
}

#[test]
fn echo_sends_its_argument_values() {
    let mut vm = Vm::new();
    let root = vm.scopes.attach(ScopeData::new(None, None, false));
    let cmd = CrushCommand::command(NativeOp::Echo, false);
    let (_in_s, in_r) = vm.streams.pipe();
    let (out_s, _o) = vm.streams.pipe();
    let ctx = ExecutionContext {
        input: in_r,
        output: out_s,
        arguments: vec![Argument::unnamed(Value::Integer(7)), Argument::unnamed(Value::Bool(true))],
        env: root,
        this: None,
    };
    cmd.invoke(ctx, &mut vm, 10).expect("echo succeeds");
    let rows = vm.streams.sent_rows(out_s);
    assert_eq!(rows.len(), 2);
    assert_eq!(as_int(&rows[0]), 7);
    assert!(matches!(rows[1], Value::Bool(true)));
}

#[test]
fn command_names_describe_the_variants() {
    let root = crush_core::scope::Scope { id: 0 };
    assert_eq!(CrushCommand::command(NativeOp::Pass, false).name(), "command");
    assert_eq!(CrushCommand::condition(NativeOp::Pass).name(), "conditional command");
    assert_eq!(CrushCommand::closure(Vec::new(), &root).name(), "closure");
}

#[test]
fn duplicate_keeps_behavior_and_shares_defining_scope() {
    let root = crush_core::scope::Scope { id: 3 };
    let c = CrushCommand::closure(
        vec![stage(CrushCommand::command(NativeOp::Pass, true))],
        &root,
    );
    let d = c.dup();
    match d {
        CrushCommand::Closure { job_definitions, env } => {
            assert_eq!(env.id, 3);
            assert_eq!(job_definitions.len(), 1);
        },
        _ => panic!("a duplicated closure stays a closure"),
    }
}

#[test]
fn can_block_follows_the_variant_policy() {
    let env = crush_core::scope::Scope { id: 0 };
    let none: Vec<ArgumentDefinition> = Vec::new();
    assert!(CrushCommand::command(NativeOp::Pass, true).can_block(&none, &env));
    assert!(!CrushCommand::command(NativeOp::Pass, false).can_block(&none, &env));
    // a condition blocks exactly when evaluating some argument could block
    let literal_args = vec![ArgumentDefinition {
        name: None,
        value: ValueDefinition::Literal(Value::Integer(1)),
    }];
    assert!(!CrushCommand::condition(NativeOp::Pass).can_block(&literal_args, &env));
    let blocking_sub = vec![ArgumentDefinition {
        name: None,
        value: ValueDefinition::Sub(Box::new(stage(CrushCommand::command(NativeOp::Pass, true)))),
    }];
    assert!(CrushCommand::condition(NativeOp::Pass).can_block(&blocking_sub, &env));
    // a single-stage closure delegates; a multi-stage closure always blocks
    let single = CrushCommand::closure(
        vec![stage(CrushCommand::command(NativeOp::Pass, false))],
        &env,
    );
    assert!(!single.can_block(&none, &env));
    let multi = CrushCommand::closure(
        vec![
            stage(CrushCommand::command(NativeOp::Pass, false)),
            stage(CrushCommand::command(NativeOp::Pass, false)),
        ],
        &env,
    );
    assert!(multi.can_block(&none, &env));
}

#[test]
fn argument_extraction_checks_kind_index_and_arity() {
    let mut args = vec![Argument::unnamed(Value::Integer(5))];
    assert_eq!(args.check_len(1), Ok(()));
    assert_eq!(
        args.check_len(3),
        Err(CrushError::ArgumentArity { expected: 3, actual: 1 })
    );
    // wrong kind
    assert_eq!(args.string(0), Err(CrushError::ArgumentKind));
    // index out of range
    assert_eq!(args.integer(5), Err(CrushError::IndexOutOfBounds { index: 5 }));
}

#[test]
fn argument_extraction_consumes_the_slot() {
    let mut args = vec![
        Argument::unnamed(Value::String("hello".to_string())),
        Argument::unnamed(Value::Integer(5)),
        Argument::unnamed(Value::Type(ValueType::Bool)),
        Argument::unnamed(Value::Field(vec!["a".to_string(), "b".to_string()])),
    ];
    assert_eq!(args.string(0), Ok("hello".to_string()));
    // consumed: the slot now holds the inert placeholder
    assert_eq!(args.string(0), Err(CrushError::ArgumentKind));
    assert_eq!(args.integer(1), Ok(5));
    assert_eq!(args.typ(2), Ok(ValueType::Bool));
    assert_eq!(args.field(3), Ok(vec!["a".to_string(), "b".to_string()]));
    let v = args.value(0).expect("any value extracts");
    assert!(matches!(v, Value::Bool(false)));
}

#[test]
fn command_argument_extracts_a_command() {
    let mut args = vec![Argument::unnamed(Value::Command(CrushCommand::command(
        NativeOp::Pass,
        false,
    )))];
    let c = args.command(0).expect("a command argument");
    assert_eq!(c.name(), "command");
}

#[test]
fn receiver_extraction_checks_the_kind() {
    let r: Option<Value> = Some(Value::String("txt".to_string()));
    assert_eq!(r.text(), Ok("txt".to_string()));
    let r: Option<Value> = Some(Value::Integer(3));
    assert_eq!(r.text(), Err(CrushError::ArgumentKind));
    let r: Option<Value> = None;
    assert!(matches!(r.list(), Err(CrushError::ArgumentKind)));
    let r: Option<Value> = Some(Value::List(vec![Value::Integer(1)]));
    assert_eq!(r.list().map(|l| l.len()), Ok(1));
    let r: Option<Value> = Some(Value::Dict(vec![(Value::Integer(1), Value::Integer(2))]));
    assert_eq!(r.dict().map(|d| d.len()), Ok(1));
    let r: Option<Value> = Some(Value::File("/tmp/x".to_string()));
    assert_eq!(r.file(), Ok("/tmp/x".to_string()));
    let mut h = crush_core::record::StructHeap::new();
    let s = crush_core::record::Struct::new(Vec::new(), None, &mut h);
    let r: Option<Value> = Some(Value::Struct(s));
    assert_eq!(r.record().map(|s| s.id), Ok(s.id));
}

#[test]
fn receiver_binds_under_the_name_this() {
    // a single-stage closure whose stage echoes nothing: we only observe that
    // the receiver was bound into the child scope by breaking on it later
    let mut vm = Vm::new();
    let root = vm.scopes.attach(ScopeData::new(None, None, false));
    let body = CrushCommand::closure(
        vec![stage(CrushCommand::command(NativeOp::Pass, false))],
        &root,
    );
    let (_i, in_r) = vm.streams.pipe();
    let (out_s, _o) = vm.streams.pipe();
    let ctx = ExecutionContext {
        input: in_r,
        output: out_s,
        arguments: vec![Argument::named("n", Value::Integer(1))],
        env: root,
        this: Some(Value::Integer(42)),
    };
    body.invoke(ctx, &mut vm, 100).expect("runs");
    // the child scope is the second node; its bindings hold this and n
    let child = crush_core::scope::Scope { id: 1 };
    let this_val = vm.scopes.remove(child, "this").expect("receiver bound as this");
    assert_eq!(as_int(&this_val), 42);
    let n_val = vm.scopes.remove(child, "n").expect("named argument bound");
    assert_eq!(as_int(&n_val), 1);
}

#[test]
fn for_loop_requires_two_arguments() {
    let mut vm = Vm::new();
    let root = vm.scopes.attach(ScopeData::new(None, None, false));
    let (_i, in_r) = vm.streams.pipe();
    let (out_s, _o) = vm.streams.pipe();
    let ctx = ExecutionContext {
        input: in_r,
        output: out_s,
        arguments: vec![Argument::unnamed(Value::Integer(1))],
        env: root,
        this: None,
    };
    assert_eq!(
        crush_core::control::for_loop(ctx, &mut vm, 100),
        Err(CrushError::ArgumentArity { expected: 2, actual: 1 })
    );
    // the empty value announcing the loop was sent before the check
    assert_eq!(vm.streams.sent_rows(out_s).len(), 1);
}

#[test]
fn for_loop_rejects_a_non_stream_value() {
    let mut vm = Vm::new();
    let root = vm.scopes.attach(ScopeData::new(None, None, false));
    let body = CrushCommand::command(NativeOp::Pass, false);
    let (_i, in_r) = vm.streams.pipe();
    let (out_s, _o) = vm.streams.pipe();
    let ctx = ExecutionContext {
        input: in_r,
        output: out_s,
        arguments: vec![
            Argument::unnamed(Value::Integer(1)),
            Argument::unnamed(Value::Command(body)),
        ],
        env: root,
        this: None,
    };
    assert_eq!(crush_core::control::for_loop(ctx, &mut vm, 100), Err(CrushError::Generic));
}

#[test]
fn for_loop_runs_the_body_per_row_and_breaks_early() {
    let mut vm = Vm::new();
    let root = vm.scopes.attach(ScopeData::new(None, None, false));
    // the body issues a break; each row runs in a fresh loop frame, so the
    // first iteration stops the loop and the invocation still succeeds
    let body = CrushCommand::command(NativeOp::Break, false);
    let (_i, in_r) = vm.streams.pipe();
    let (out_s, _o) = vm.streams.pipe();
    let ctx = ExecutionContext {
        input: in_r,
        output: out_s,
        arguments: vec![
            Argument::unnamed(Value::List(vec![
                Value::Integer(1),
                Value::Integer(2),
                Value::Integer(3),
            ])),
            Argument::unnamed(Value::Command(body)),
        ],
        env: root,
        this: None,
    };
    crush_core::control::for_loop(ctx, &mut vm, 100).expect("loop ends early with success");
    // exactly one loop frame was created and it is stopped
    assert_eq!(vm.scopes.len(), 2);
    assert!(vm.scopes.is_stopped(crush_core::scope::Scope { id: 1 }));
}

#[test]
fn for_loop_binds_named_iterable_to_the_given_name() {
    let mut vm = Vm::new();
    let root = vm.scopes.attach(ScopeData::new(None, None, false));
    let body = CrushCommand::command(NativeOp::Break, false);
    let (_i, in_r) = vm.streams.pipe();
    let (out_s, _o) = vm.streams.pipe();
    let ctx = ExecutionContext {
        input: in_r,
        output: out_s,
        arguments: vec![
            Argument {
                name: Some("item".to_string()),
                value: Value::List(vec![Value::Integer(7)]),
            },
            Argument::unnamed(Value::Command(body)),
        ],
        env: root,
        this: None,
    };
    crush_core::control::for_loop(ctx, &mut vm, 100).expect("runs");
}

#[test]
fn value_type_tags_match_the_variants() {
    assert_eq!(Value::Integer(1).value_type(), ValueType::Integer);
    assert_eq!(Value::String("s".to_string()).value_type(), ValueType::String);
    assert_eq!(Value::Empty.value_type(), ValueType::Empty);
    assert_eq!(Value::Bool(false).value_type(), ValueType::Bool);
}

#[test]
fn value_dup_copies_deeply() {
    let v = Value::List(vec![
        Value::String("a".to_string()),
        Value::Dict(vec![(Value::Integer(1), Value::Bool(true))]),
    ]);
    let d = v.dup();
    match (v, d) {
        (Value::List(a), Value::List(b)) => {
            assert_eq!(a.len(), b.len());
            match (&a[0], &b[0]) {
                (Value::String(x), Value::String(y)) => assert_eq!(x, y),
                _ => panic!("first elements should be strings"),
            }
        },
        _ => panic!("a duplicated list stays a list"),
    }
}

#[test]
fn for_loop_rejects_a_non_command_body() {
    let mut vm = Vm::new();
    let root = vm.scopes.attach(ScopeData::new(None, None, false));
    let (_i, in_r) = vm.streams.pipe();
    let (out_s, _o) = vm.streams.pipe();
    let ctx = ExecutionContext {
        input: in_r,
        output: out_s,
        arguments: vec![
            Argument::unnamed(Value::List(vec![Value::Integer(1)])),
            Argument::unnamed(Value::Integer(2)),
        ],
        env: root,
        this: None,
    };
    assert_eq!(
        crush_core::control::for_loop(ctx, &mut vm, 100),
        Err(CrushError::ArgumentKind)
    );
}

#[test]
fn for_loop_iterates_a_record_as_named_rows() {
    let mut vm = Vm::new();
    let root = vm.scopes.attach(ScopeData::new(None, None, false));
    let rec = crush_core::record::Struct::new(
        vec![
            ("a".to_string(), Value::Integer(1)),
            ("b".to_string(), Value::Integer(2)),
        ],
        None,
        &mut vm.structs,
    );
    // a body that never signals: the loop visits both fields and succeeds
    let body = CrushCommand::command(NativeOp::Echo, false);
    let (_i, in_r) = vm.streams.pipe();
    let (out_s, _o) = vm.streams.pipe();
    let ctx = ExecutionContext {
        input: in_r,
        output: out_s,
        arguments: vec![
            Argument::unnamed(Value::Struct(rec)),
            Argument::unnamed(Value::Command(body)),
        ],
        env: root,
        this: None,
    };
    crush_core::control::for_loop(ctx, &mut vm, 100).expect("iterating a record succeeds");
    // one loop frame per field was created, none stopped
    assert_eq!(vm.scopes.len(), 3);
    assert!(!vm.scopes.is_stopped(crush_core::scope::Scope { id: 1 }));
    assert!(!vm.scopes.is_stopped(crush_core::scope::Scope { id: 2 }));
}

#[test]
fn failing_stage_aborts_the_pipeline_and_propagates_its_error() {
    let mut vm = Vm::new();
    let root = vm.scopes.attach(ScopeData::new(None, None, false));
    // the second stage is an empty closure: its failure must abort the
    // pipeline unchanged, and the final stage must never run
    let broken = CrushCommand::closure(Vec::new(), &root);
    let marker = Job {
        command: CrushCommand::command(NativeOp::Echo, false),
        arguments: vec![ArgumentDefinition {
            name: None,
            value: ValueDefinition::Literal(Value::Integer(9)),
        }],
    };
    let body = CrushCommand::closure(
        vec![
            stage(CrushCommand::command(NativeOp::Pass, false)),
            stage(broken),
            marker,
        ],
        &root,
    );
    let (_i, in_r) = vm.streams.pipe();
    let (out_s, _o) = vm.streams.pipe();
    let ctx = ExecutionContext {
        input: in_r,
        output: out_s,
        arguments: Vec::new(),
        env: root,
        this: None,
    };
    assert_eq!(body.invoke(ctx, &mut vm, 100), Err(CrushError::EmptyBody));
    assert_eq!(vm.streams.sent_rows(out_s).len(), 0);
}
