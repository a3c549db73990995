//! The iteration primitive: consumes a value as a stream of rows and invokes
//! a command body once per row, stopping early when the loop scope is
//! flagged stopped.

use vstd::prelude::*;
use crate::command::{args_model, Argument, ArgumentVector, CrushCommand, ExecutionContext};
use crate::stream::ChannelModel;
use crate::errors::{CrushError, CrushResult};
use crate::record::{col_names, struct_stream_types, Struct};
use crate::value::{ColumnType, Row, Value, ValueType};
use crate::vm::{lemma_vm_extends_refl, lemma_vm_extends_trans, vm_extends, Vm};

verus! {

/// Copies a column schema.
fn dup_cols(v: &Vec<ColumnType>) -> (r: Vec<ColumnType>)
    ensures
        col_names(r@) == col_names(v@),
        r@.len() == v@.len(),
{
    let n = v.len();
    let mut out: Vec<ColumnType> = Vec::new();
    let mut i: usize = 0;
    while i < n
        invariant
            n == v@.len(),
            i <= n,
            out@.len() == i,
            forall|m: int| 0 <= m < i ==> (#[trigger] out@[m]).name@ == v@[m].name@,
        decreases n - i,
    {
        let cell_type = v[i].cell_type;
        out.push(ColumnType { name: v[i].name.clone(), cell_type });
        i = i + 1;
    }
    proof {
        assert(col_names(out@) =~= col_names(v@));
    }
    out
}

/// Resolves a value as a stream of rows and a column schema: a list yields
/// one single-column row per element, a mapping one (key, value) row per
/// entry, and a record one (name, value) row per visible field. Any other
/// value is not a stream.
fn value_rows(v: Value, vm: &Vm) -> (r: CrushResult<(Vec<Row>, Vec<ColumnType>)>)
    requires
        vm.wf(),
    ensures
        match r {
            Ok((rows, types)) => {
                &&& (v.model() is List || v.model() is Dict || v.model() is Struct)
                &&& crate::record::distinct_names(col_names(types@))
                &&& types@.len() >= 1
                &&& forall|m: int| 0 <= m < rows@.len()
                    ==> (#[trigger] rows@[m]).cells@.len() == types@.len()
            },
            Err(e) => e == CrushError::Generic,
        },
{
    match v {
        Value::List(vs) => {
            let mut types: Vec<ColumnType> = Vec::new();
            types.push(ColumnType::new("value", ValueType::Any));
            let mut rows: Vec<Row> = Vec::new();
            let mut work = vs;
            while work.len() > 0
                invariant
                    forall|m: int| 0 <= m < rows@.len()
                        ==> (#[trigger] rows@[m]).cells@.len() == 1,
                decreases work@.len(),
            {
                let e = work.remove(0);
                let mut cells: Vec<Value> = Vec::new();
                cells.push(e);
                rows.push(Row { cells });
            }
            proof {
                assert(col_names(types@) =~= seq!["value"@]);
            }
            Ok((rows, types))
        },
        Value::Dict(ps) => {
            let mut types: Vec<ColumnType> = Vec::new();
            types.push(ColumnType::new("key", ValueType::Any));
            types.push(ColumnType::new("value", ValueType::Any));
            let mut rows: Vec<Row> = Vec::new();
            let mut work = ps;
            while work.len() > 0
                invariant
                    forall|m: int| 0 <= m < rows@.len()
                        ==> (#[trigger] rows@[m]).cells@.len() == 2,
                decreases work@.len(),
            {
                let (k, val) = work.remove(0);
                let mut cells: Vec<Value> = Vec::new();
                cells.push(k);
                cells.push(val);
                rows.push(Row { cells });
            }
            proof {
                reveal_strlit("key");
                reveal_strlit("value");
                assert(col_names(types@) =~= seq!["key"@, "value"@]);
                assert("key"@.len() == 3);
                assert("value"@.len() == 5);
                assert(crate::record::distinct_names(col_names(types@)));
            }
            Ok((rows, types))
        },
        Value::Struct(s) => {
            if s.id >= vm.structs.len() {
                return Err(CrushError::Generic);
            }
            let pairs = s.map(&vm.structs);
            let types = struct_stream_types();
            let mut rows: Vec<Row> = Vec::new();
            let mut work = pairs;
            while work.len() > 0
                invariant
                    forall|m: int| 0 <= m < rows@.len()
                        ==> (#[trigger] rows@[m]).cells@.len() == 2,
                decreases work@.len(),
            {
                let (k, val) = work.remove(0);
                let mut cells: Vec<Value> = Vec::new();
                cells.push(Value::String(k));
                cells.push(val);
                rows.push(Row { cells });
            }
            proof {
                reveal_strlit("name");
                reveal_strlit("value");
                assert(col_names(types@) =~= seq!["name"@, "value"@]);
                assert("name"@.len() == 4);
                assert("value"@.len() == 5);
                assert(crate::record::distinct_names(col_names(types@)));
            }
            Ok((rows, types))
        },
        _ => Err(CrushError::Generic),
    }
}

/// The iteration primitive. Expects exactly two arguments: the value to
/// iterate (a list, mapping or record) and the command body. Announces
/// itself by sending an empty value to its output, then, for each row,
/// creates a fresh loop scope whose lexical parent and dynamic caller are
/// both the invoking environment, binds the row (named columns when the
/// iterable argument carries no name, the whole row under that name
/// otherwise), and invokes the body. After each row the loop scope's stop
/// flag is consulted: a stopped iteration ends early with success. A
/// validation failure leaves every scope and record untouched: no body ran.
pub fn for_loop(context: ExecutionContext, vm: &mut Vm, budget: u64) -> (r: CrushResult<()>)
    requires
        old(vm).wf(),
        old(vm).scopes.valid(context.env.id as int),
        old(vm).streams.valid(context.input.channel as int),
        old(vm).streams.valid(context.output.channel as int),
    ensures
        final(vm).wf(),
        vm_extends(*old(vm), *final(vm)),
        budget == 0 ==> r == Err::<(), CrushError>(CrushError::Generic) && *final(vm) == *old(vm),
        budget > 0 && context.arguments@.len() != 2 ==> r == Err::<(), CrushError>(
            CrushError::ArgumentArity { expected: 2, actual: context.arguments@.len() as usize },
        ) && final(vm).scopes@ == old(vm).scopes@ && final(vm).structs@ == old(vm).structs@,
        budget > 0 && context.arguments@.len() == 2
            && !(args_model(context.arguments)[1].value is Command)
            ==> r == Err::<(), CrushError>(CrushError::ArgumentKind)
                && final(vm).scopes@ == old(vm).scopes@
                && final(vm).structs@ == old(vm).structs@,
        budget > 0 && context.arguments@.len() == 2
            && args_model(context.arguments)[1].value is Command
            && !(args_model(context.arguments)[0].value is List
                || args_model(context.arguments)[0].value is Dict
                || args_model(context.arguments)[0].value is Struct)
            ==> r == Err::<(), CrushError>(CrushError::Generic)
                && final(vm).scopes@ == old(vm).scopes@
                && final(vm).structs@ == old(vm).structs@,
        budget > 0 ==> final(vm).streams@[context.output.channel as int] == (ChannelModel {
            rows: old(vm).streams@[context.output.channel as int].rows.push(Value::Empty),
            read_pos: old(vm).streams@[context.output.channel as int].read_pos,
        }),
        forall|c: int| 0 <= c < old(vm).streams@.len() && c != context.output.channel as int
            ==> final(vm).streams@[c] == old(vm).streams@[c],
        forall|i: int| old(vm).stage_log@.len() <= i < final(vm).stage_log@.len()
            ==> ((#[trigger] final(vm).stage_log@[i]).direct
                ==> final(vm).stage_log@[i].env >= old(vm).scopes@.len()),
    decreases budget, 1int,
{
    if budget == 0 {
        return Err(CrushError::Generic);
    }
    let ghost vm0 = *vm;
    let ghost nargs = context.arguments@.len();
    let ExecutionContext { output, arguments, env: caller_env, .. } = context;
    proof {
        assert(arguments@.len() == nargs);
    }
    let mut arguments = arguments;
    vm.streams.send(output, Value::Empty);
    proof {
        assert(vm_extends(vm0, *vm));
    }
    let arity = arguments.check_len(2);
    proof {
        assert(arguments.arg_models() == args_model(arguments));
        assert(args_model(arguments).len() == arguments@.len());
    }
    if let Err(e) = arity {
        return Err(e);
    }
    proof {
        // exactly two arguments were supplied: a wrong count would have
        // produced the arity error returned above
        assert(args_model(arguments).len() == 2) by {
            if args_model(arguments).len() != 2 {
                assert(arity is Err);
            }
        }
        assert(args_model(arguments).len() == arguments@.len());
        assert(nargs == 2);
    }
    let body = match arguments.command(1) {
        Ok(c) => c,
        Err(e) => {
            return Err(e);
        },
    };
    proof {
        assert(args_model(arguments).len() == 2);
        assert(args_model(arguments).len() == arguments@.len());
        assert(args_model(context.arguments)[1].value is Command);
        assert(args_model(arguments)[0] == args_model(context.arguments)[0]);
    }
    let ghost first_arg_model = args_model(arguments)[0];
    let iter = arguments.remove(0);
    proof {
        assert(iter.model() == first_arg_model);
        assert(iter.value.model() == args_model(context.arguments)[0].value);
    }
    let name = iter.name;
    let (rows, types) = match value_rows(iter.value, vm) {
        Ok(p) => p,
        Err(e) => {
            return Err(e);
        },
    };
    let mut rows = rows;
    proof {
        lemma_vm_extends_refl(vm0);
    }
    while rows.len() > 0
        invariant
            vm0 == *old(vm),
            context.arguments@.len() == 2,
            context.output == output,
            vm.streams.valid(output.channel as int),
            vm.streams@[output.channel as int] == (ChannelModel {
                rows: old(vm).streams@[output.channel as int].rows.push(Value::Empty),
                read_pos: old(vm).streams@[output.channel as int].read_pos,
            }),
            forall|c: int| 0 <= c < old(vm).streams@.len() && c != output.channel as int
                ==> vm.streams@[c] == old(vm).streams@[c],
            forall|i: int| old(vm).stage_log@.len() <= i < vm.stage_log@.len()
                ==> ((#[trigger] vm.stage_log@[i]).direct
                    ==> vm.stage_log@[i].env >= old(vm).scopes@.len()),
            args_model(context.arguments)[1].value is Command,
            args_model(context.arguments)[0].value is List
                || args_model(context.arguments)[0].value is Dict
                || args_model(context.arguments)[0].value is Struct,
            budget > 0,
            vm.wf(),
            vm_extends(vm0, *vm),
            vm.scopes.valid(caller_env.id as int),
            crate::record::distinct_names(col_names(types@)),
            types@.len() >= 1,
            forall|m: int| 0 <= m < rows@.len()
                ==> (#[trigger] rows@[m]).cells@.len() == types@.len(),
        decreases rows@.len(),
    {
        let ghost vmi = *vm;
        let row = rows.remove(0);
        let env = vm.scopes.create_child(caller_env, caller_env, true);
        let mut cells = row.into_vec();
        let mut arguments: Vec<Argument> = Vec::new();
        match &name {
            None => {
                let k = types.len();
                let mut j: usize = 0;
                while j < k
                    invariant
                        k == types@.len(),
                        j <= k,
                        cells@.len() == k - j,
                    decreases k - j,
                {
                    let c = cells.remove(0);
                    arguments.push(Argument::named(types[j].name.as_str(), c));
                    j = j + 1;
                }
            },
            Some(var_name) => {
                if types.len() == 1 {
                    let c = cells.remove(0);
                    arguments.push(Argument { name: Some(var_name.clone()), value: c });
                } else {
                    let tcopy = dup_cols(&types);
                    let s = Struct::from_vec(cells, tcopy, &mut vm.structs);
                    arguments.push(Argument {
                        name: Some(var_name.clone()),
                        value: Value::Struct(s),
                    });
                }
            },
        }
        let ein = vm.streams.empty_channel();
        let sink = vm.streams.black_hole();
        let ri = body.invoke(
            ExecutionContext { input: ein, output: sink, arguments, env, this: None },
            vm,
            budget - 1,
        );
        proof {
            lemma_vm_extends_trans(vm0, vmi, *vm);
        }
        if let Err(e) = ri {
            return Err(e);
        }
        if vm.scopes.is_stopped(env) {
            break;
        }
    }
    Ok(())
}

} // verus!
