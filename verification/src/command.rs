//! The command abstraction: a closed set of invocable variants sharing one
//! capability contract (invoke, blocking prediction, diagnostic name,
//! duplication), together with the invocation record and the consuming
//! argument accessors.

use vstd::prelude::*;
use crate::errors::{CrushError, CrushResult};
use crate::scope::{break_marks, continue_marks, first_match, has_binding, signal_target, Scope, ScopeModel};
use crate::stream::{ChannelModel, ValueReceiver, ValueSender};
use crate::value::{Value, ValueType};
use crate::vm::{lemma_runs_extend, lemma_vm_extends_trans, stage_runs, vm_extends, StageRun, Vm};

verus! {

broadcast use vstd::std_specs::vec::axiom_vec_index_decreases;

/// An evaluated call argument: an optional name and a value.
pub struct Argument {
    pub name: Option<String>,
    pub value: Value,
}

/// An unevaluated argument expression, used only to predict whether
/// evaluating it could block.
pub enum ValueDefinition {
    /// A literal value; evaluating it never blocks.
    Literal(Value),
    /// A substitution: a job run at call time to produce the value.
    Sub(Box<Job>),
}

/// An unevaluated argument: an optional name and an unevaluated expression.
pub struct ArgumentDefinition {
    pub name: Option<String>,
    pub value: ValueDefinition,
}

/// One pipeline stage definition: the command to run and the unevaluated
/// arguments it is to be called with.
pub struct Job {
    pub command: CrushCommand,
    pub arguments: Vec<ArgumentDefinition>,
}

/// The fixed operations this core ships as native command payloads.
#[derive(Clone, Copy, Debug, PartialEq, Eq, Structural)]
pub enum NativeOp {
    /// Sends each argument value to the output stream, in order.
    Echo,
    /// Copies every remaining input row to the output stream.
    Pass,
    /// Issues a break signal on the environment scope.
    Break,
    /// Issues a continue signal on the environment scope.
    Continue,
    /// The iteration primitive: consumes a stream and invokes a command body
    /// once per row.
    For,
}

/// A command: the closed set of invocable variants.
///
/// A closure owns an ordered list of stage definitions and the scope captured
/// at its definition site; every invocation shares that same defining scope.
pub enum CrushCommand {
    /// A native operation with a statically known blocking policy.
    Simple { op: NativeOp, can_block: bool },
    /// A native condition operation: it may block exactly when evaluating any
    /// of its unevaluated arguments could block.
    Condition { op: NativeOp },
    /// A user closure: ordered stage definitions plus the captured scope.
    Closure { job_definitions: Vec<Job>, env: Scope },
}

/// The invocation record a caller builds to invoke a command.
pub struct ExecutionContext {
    pub input: ValueReceiver,
    pub output: ValueSender,
    pub arguments: Vec<Argument>,
    pub env: Scope,
    pub this: Option<Value>,
}

/// An invocation record for commands fed by a stream of argument rows.
pub struct StreamExecutionContext {
    pub argument_stream: ValueReceiver,
    pub output: ValueSender,
    pub env: Scope,
}


/// The mathematical shape of a command.
pub enum CommandModel {
    Simple { op: NativeOp, can_block: bool },
    Condition { op: NativeOp },
    Closure { jobs: Seq<JobModel>, env: int },
}

/// The mathematical shape of a stage definition.
pub struct JobModel {
    pub command: CommandModel,
    pub arguments: Seq<ArgumentDefinitionModel>,
}

/// The mathematical shape of an unevaluated argument.
pub struct ArgumentDefinitionModel {
    pub name: Option<Seq<char>>,
    pub value: ValueDefinitionModel,
}

/// The mathematical shape of an unevaluated argument expression.
pub enum ValueDefinitionModel {
    Literal(crate::value::ValueModel),
    Sub(Box<JobModel>),
}

/// The mathematical shape of an evaluated argument.
pub struct ArgumentModel {
    pub name: Option<Seq<char>>,
    pub value: crate::value::ValueModel,
}

impl CrushCommand {
    /// The mathematical shape of this command.
    pub open spec fn model(self) -> CommandModel
        decreases self,
    {
        match self {
            CrushCommand::Simple { op, can_block } => CommandModel::Simple { op, can_block },
            CrushCommand::Condition { op } => CommandModel::Condition { op },
            CrushCommand::Closure { job_definitions, env } => CommandModel::Closure {
                jobs: jobs_model(job_definitions),
                env: env.id as int,
            },
        }
    }
}

/// The models of a vector of stage definitions.
pub open spec fn jobs_model(v: Vec<Job>) -> Seq<JobModel>
    decreases v,
{
    Seq::new(v@.len(), |i: int| if 0 <= i < v@.len() {
        v@[i].model()
    } else {
        arbitrary()
    })
}

/// The models of a vector of unevaluated arguments.
pub open spec fn argdefs_model(v: Vec<ArgumentDefinition>) -> Seq<ArgumentDefinitionModel>
    decreases v,
{
    Seq::new(v@.len(), |i: int| if 0 <= i < v@.len() {
        v@[i].model()
    } else {
        arbitrary()
    })
}

/// The models of a vector of evaluated arguments.
pub open spec fn args_model(v: Vec<Argument>) -> Seq<ArgumentModel> {
    Seq::new(v@.len(), |i: int| v@[i].model())
}

impl Job {
    /// The mathematical shape of this stage definition.
    pub open spec fn model(self) -> JobModel
        decreases self,
    {
        JobModel { command: self.command.model(), arguments: argdefs_model(self.arguments) }
    }
}

impl ArgumentDefinition {
    /// The mathematical shape of this unevaluated argument.
    pub open spec fn model(self) -> ArgumentDefinitionModel
        decreases self,
    {
        ArgumentDefinitionModel {
            name: match self.name {
                Some(n) => Some(n@),
                None => None,
            },
            value: self.value.model(),
        }
    }
}

impl ValueDefinition {
    /// The mathematical shape of this unevaluated argument expression.
    pub open spec fn model(self) -> ValueDefinitionModel
        decreases self,
    {
        match self {
            ValueDefinition::Literal(v) => ValueDefinitionModel::Literal(v.model()),
            ValueDefinition::Sub(j) => ValueDefinitionModel::Sub(Box::new(j.model())),
        }
    }
}

impl Argument {
    /// The mathematical shape of this evaluated argument.
    pub open spec fn model(self) -> ArgumentModel {
        ArgumentModel {
            name: match self.name {
                Some(n) => Some(n@),
                None => None,
            },
            value: self.value.model(),
        }
    }
}

impl Argument {
    /// An argument without a name.
    pub fn unnamed(value: Value) -> (a: Argument)
        ensures
            a.model() == (ArgumentModel { name: None, value: value.model() }),
    {
        Argument { name: None, value }
    }

    /// An argument named `name`.
    pub fn named(name: &str, value: Value) -> (a: Argument)
        ensures
            a.model() == (ArgumentModel { name: Some(name@), value: value.model() }),
    {
        Argument { name: Some(name.to_owned()), value }
    }
}

/// Duplicates a vector of stage definitions.
pub fn dup_jobs(v: &Vec<Job>) -> (r: Vec<Job>)
    ensures
        jobs_model(*v) == jobs_model(r),
    decreases *v,
{
    let mut out: Vec<Job> = Vec::new();
    let n = v.len();
    let mut i: usize = 0;
    while i < n
        invariant
            n == v@.len(),
            i <= n,
            out@.len() == i,
            forall|m: int| 0 <= m < i ==> (#[trigger] out@[m]).model() == v@[m].model(),
        decreases n - i,
    {
        let e = v[i].dup();
        out.push(e);
        i = i + 1;
    }
    proof {
        assert(jobs_model(*v) =~= jobs_model(out));
    }
    out
}

/// Duplicates a vector of unevaluated arguments.
pub fn dup_argdefs(v: &Vec<ArgumentDefinition>) -> (r: Vec<ArgumentDefinition>)
    ensures
        argdefs_model(*v) == argdefs_model(r),
    decreases *v,
{
    let mut out: Vec<ArgumentDefinition> = Vec::new();
    let n = v.len();
    let mut i: usize = 0;
    while i < n
        invariant
            n == v@.len(),
            i <= n,
            out@.len() == i,
            forall|m: int| 0 <= m < i ==> (#[trigger] out@[m]).model() == v@[m].model(),
        decreases n - i,
    {
        let e = v[i].dup();
        out.push(e);
        i = i + 1;
    }
    proof {
        assert(argdefs_model(*v) =~= argdefs_model(out));
    }
    out
}

impl Job {
    /// An independent copy of this stage definition.
    pub fn dup(&self) -> (r: Job)
        ensures
            r.model() == self.model(),
        decreases self,
    {
        Job { command: self.command.dup(), arguments: dup_argdefs(&self.arguments) }
    }
}

impl ArgumentDefinition {
    /// An independent copy of this unevaluated argument.
    pub fn dup(&self) -> (r: ArgumentDefinition)
        ensures
            r.model() == self.model(),
        decreases self,
    {
        ArgumentDefinition {
            name: match &self.name {
                Some(n) => Some(n.clone()),
                None => None,
            },
            value: self.value.dup(),
        }
    }
}

impl ValueDefinition {
    /// An independent copy of this unevaluated argument expression.
    pub fn dup(&self) -> (r: ValueDefinition)
        ensures
            r.model() == self.model(),
        decreases self,
    {
        match self {
            ValueDefinition::Literal(v) => ValueDefinition::Literal(v.dup()),
            ValueDefinition::Sub(j) => ValueDefinition::Sub(std::boxed::Box::new((**j).dup())),
        }
    }
}

impl CrushCommand {
    /// A user closure over the given ordered stage definitions, capturing
    /// the defining scope `env`: every invocation shares that same scope.
    pub fn closure(job_definitions: Vec<Job>, env: &Scope) -> (c: CrushCommand)
        ensures
            c == (CrushCommand::Closure { job_definitions, env: Scope { id: env.id } }),
    {
        CrushCommand::Closure { job_definitions, env: Scope { id: env.id } }
    }

    /// A native command with a statically known blocking policy.
    pub fn command(op: NativeOp, can_block: bool) -> (c: CrushCommand)
        ensures
            c == (CrushCommand::Simple { op, can_block }),
    {
        CrushCommand::Simple { op, can_block }
    }

    /// A native condition command.
    pub fn condition(op: NativeOp) -> (c: CrushCommand)
        ensures
            c == (CrushCommand::Condition { op }),
    {
        CrushCommand::Condition { op }
    }

    /// The diagnostic name of this command variant.
    pub fn name(&self) -> (r: &'static str)
        ensures
            self is Simple ==> r@ == "command"@,
            self is Condition ==> r@ == "conditional command"@,
            self is Closure ==> r@ == "closure"@,
    {
        match self {
            CrushCommand::Simple { .. } => "command",
            CrushCommand::Condition { .. } => "conditional command",
            CrushCommand::Closure { .. } => "closure",
        }
    }

    /// An independent handle with identical behavior; a duplicated closure
    /// still shares the same captured defining scope.
    pub fn dup(&self) -> (r: CrushCommand)
        ensures
            r.model() == self.model(),
        decreases self,
    {
        match self {
            CrushCommand::Simple { op, can_block } => CrushCommand::Simple {
                op: *op,
                can_block: *can_block,
            },
            CrushCommand::Condition { op } => CrushCommand::Condition { op: *op },
            CrushCommand::Closure { job_definitions, env } => CrushCommand::Closure {
                job_definitions: dup_jobs(job_definitions),
                env: Scope { id: env.id },
            },
        }
    }
}


/// The placeholder model left behind by a consuming argument accessor.
pub open spec fn consumed_arg() -> ArgumentModel {
    ArgumentModel { name: None, value: crate::value::ValueModel::Bool(false) }
}

/// Typed, consuming extraction of call arguments by index: each accessor
/// removes the argument at the index, replacing it with an inert
/// placeholder, and returns its payload only if the stored value's variant
/// matches the requested kind.
pub trait ArgumentVector {
    /// The models of the held arguments.
    spec fn arg_models(&self) -> Seq<ArgumentModel>;

    /// Fails with an arity error naming expected and actual counts unless
    /// exactly `len` arguments are held.
    fn check_len(&self, len: usize) -> (r: CrushResult<()>)
        ensures
            self.arg_models().len() == len ==> r == Ok::<(), CrushError>(()),
            self.arg_models().len() != len ==> r == Err::<(), CrushError>(
                CrushError::ArgumentArity { expected: len, actual: self.arg_models().len() as usize },
            ),
    ;

    /// Consumes the argument at `idx` and returns its string payload.
    fn string(&mut self, idx: usize) -> (r: CrushResult<String>)
        ensures
            idx >= old(self).arg_models().len() ==> {
                &&& r == Err::<String, CrushError>(CrushError::IndexOutOfBounds { index: idx })
                &&& final(self).arg_models() == old(self).arg_models()
            },
            idx < old(self).arg_models().len() ==> {
                &&& final(self).arg_models() == old(self).arg_models().update(idx as int, consumed_arg())
                &&& match old(self).arg_models()[idx as int].value {
                    crate::value::ValueModel::String(sm) => r matches Ok(s) && s@ == sm,
                    _ => r == Err::<String, CrushError>(CrushError::ArgumentKind),
                }
            },
    ;

    /// Consumes the argument at `idx` and returns its integer payload.
    fn integer(&mut self, idx: usize) -> (r: CrushResult<i128>)
        ensures
            idx >= old(self).arg_models().len() ==> {
                &&& r == Err::<i128, CrushError>(CrushError::IndexOutOfBounds { index: idx })
                &&& final(self).arg_models() == old(self).arg_models()
            },
            idx < old(self).arg_models().len() ==> {
                &&& final(self).arg_models() == old(self).arg_models().update(idx as int, consumed_arg())
                &&& match old(self).arg_models()[idx as int].value {
                    crate::value::ValueModel::Integer(im) => r matches Ok(i) && i as int == im,
                    _ => r == Err::<i128, CrushError>(CrushError::ArgumentKind),
                }
            },
    ;

    /// Consumes the argument at `idx` and returns its field-path payload.
    fn field(&mut self, idx: usize) -> (r: CrushResult<Vec<String>>)
        ensures
            idx >= old(self).arg_models().len() ==> {
                &&& r == Err::<Vec<String>, CrushError>(CrushError::IndexOutOfBounds { index: idx })
                &&& final(self).arg_models() == old(self).arg_models()
            },
            idx < old(self).arg_models().len() ==> {
                &&& final(self).arg_models() == old(self).arg_models().update(idx as int, consumed_arg())
                &&& match old(self).arg_models()[idx as int].value {
                    crate::value::ValueModel::Field(fm) => r matches Ok(f) && crate::value::strs_model(f) == fm,
                    _ => r == Err::<Vec<String>, CrushError>(CrushError::ArgumentKind),
                }
            },
    ;

    /// Consumes the argument at `idx` and returns its command payload.
    fn command(&mut self, idx: usize) -> (r: CrushResult<CrushCommand>)
        ensures
            idx >= old(self).arg_models().len() ==> {
                &&& r == Err::<CrushCommand, CrushError>(CrushError::IndexOutOfBounds { index: idx })
                &&& final(self).arg_models() == old(self).arg_models()
            },
            idx < old(self).arg_models().len() ==> {
                &&& final(self).arg_models() == old(self).arg_models().update(idx as int, consumed_arg())
                &&& match old(self).arg_models()[idx as int].value {
                    crate::value::ValueModel::Command(cm) => r matches Ok(c) && c.model() == cm,
                    _ => r == Err::<CrushCommand, CrushError>(CrushError::ArgumentKind),
                }
            },
    ;

    /// Consumes the argument at `idx` and returns its type payload.
    fn typ(&mut self, idx: usize) -> (r: CrushResult<ValueType>)
        ensures
            idx >= old(self).arg_models().len() ==> {
                &&& r == Err::<ValueType, CrushError>(CrushError::IndexOutOfBounds { index: idx })
                &&& final(self).arg_models() == old(self).arg_models()
            },
            idx < old(self).arg_models().len() ==> {
                &&& final(self).arg_models() == old(self).arg_models().update(idx as int, consumed_arg())
                &&& match old(self).arg_models()[idx as int].value {
                    crate::value::ValueModel::Type(tm) => r == Ok::<ValueType, CrushError>(tm),
                    _ => r == Err::<ValueType, CrushError>(CrushError::ArgumentKind),
                }
            },
    ;

    /// Consumes the argument at `idx` and returns its value, whatever the
    /// variant.
    fn value(&mut self, idx: usize) -> (r: CrushResult<Value>)
        ensures
            idx >= old(self).arg_models().len() ==> {
                &&& r == Err::<Value, CrushError>(CrushError::IndexOutOfBounds { index: idx })
                &&& final(self).arg_models() == old(self).arg_models()
            },
            idx < old(self).arg_models().len() ==> {
                &&& final(self).arg_models() == old(self).arg_models().update(idx as int, consumed_arg())
                &&& match r {
                    Ok(v) => v.model() == old(self).arg_models()[idx as int].value,
                    Err(_) => false,
                }
            },
    ;
}

/// Consumes the argument at `idx` of `v`, leaving the placeholder behind.
fn take_arg(v: &mut Vec<Argument>, idx: usize) -> (r: Argument)
    requires
        idx < old(v)@.len(),
    ensures
        r == old(v)@[idx as int],
        args_model(*final(v)) == args_model(*old(v)).update(idx as int, consumed_arg()),
{
    let a = v.remove(idx);
    v.insert(idx, Argument { name: None, value: Value::Bool(false) });
    proof {
        assert(args_model(*v) =~= args_model(*old(v)).update(idx as int, consumed_arg()));
    }
    a
}

impl ArgumentVector for Vec<Argument> {
    open spec fn arg_models(&self) -> Seq<ArgumentModel> {
        args_model(*self)
    }

    fn check_len(&self, len: usize) -> (r: CrushResult<()>) {
        if self.len() == len {
            Ok(())
        } else {
            Err(CrushError::ArgumentArity { expected: len, actual: self.len() })
        }
    }

    fn string(&mut self, idx: usize) -> (r: CrushResult<String>) {
        if idx < self.len() {
            match take_arg(self, idx).value {
                Value::String(s) => Ok(s),
                _ => Err(CrushError::ArgumentKind),
            }
        } else {
            Err(CrushError::IndexOutOfBounds { index: idx })
        }
    }

    fn integer(&mut self, idx: usize) -> (r: CrushResult<i128>) {
        if idx < self.len() {
            match take_arg(self, idx).value {
                Value::Integer(i) => Ok(i),
                _ => Err(CrushError::ArgumentKind),
            }
        } else {
            Err(CrushError::IndexOutOfBounds { index: idx })
        }
    }

    fn field(&mut self, idx: usize) -> (r: CrushResult<Vec<String>>) {
        if idx < self.len() {
            match take_arg(self, idx).value {
                Value::Field(f) => Ok(f),
                _ => Err(CrushError::ArgumentKind),
            }
        } else {
            Err(CrushError::IndexOutOfBounds { index: idx })
        }
    }

    fn command(&mut self, idx: usize) -> (r: CrushResult<CrushCommand>) {
        if idx < self.len() {
            match take_arg(self, idx).value {
                Value::Command(c) => Ok(c),
                _ => Err(CrushError::ArgumentKind),
            }
        } else {
            Err(CrushError::IndexOutOfBounds { index: idx })
        }
    }

    fn typ(&mut self, idx: usize) -> (r: CrushResult<ValueType>) {
        if idx < self.len() {
            match take_arg(self, idx).value {
                Value::Type(t) => Ok(t),
                _ => Err(CrushError::ArgumentKind),
            }
        } else {
            Err(CrushError::IndexOutOfBounds { index: idx })
        }
    }

    fn value(&mut self, idx: usize) -> (r: CrushResult<Value>) {
        if idx < self.len() {
            Ok(take_arg(self, idx).value)
        } else {
            Err(CrushError::IndexOutOfBounds { index: idx })
        }
    }
}

/// Consuming extraction of the optional receiver of a method-style call:
/// yields the expected payload kind or fails with an argument error.
pub trait This {
    /// The model of the held receiver.
    spec fn receiver_model(self) -> Option<crate::value::ValueModel>;

    /// The receiver as a list.
    fn list(self) -> (r: CrushResult<Vec<Value>>)
        ensures
            match self.receiver_model() {
                Some(crate::value::ValueModel::List(lm)) => match r {
                    Ok(l) => crate::value::vals_model(l) == lm,
                    Err(_) => false,
                },
                _ => r == Err::<Vec<Value>, CrushError>(CrushError::ArgumentKind),
            },
    ;

    /// The receiver as a mapping.
    fn dict(self) -> (r: CrushResult<Vec<(Value, Value)>>)
        ensures
            match self.receiver_model() {
                Some(crate::value::ValueModel::Dict(dm)) => match r {
                    Ok(d) => crate::value::pairs_model(d) == dm,
                    Err(_) => false,
                },
                _ => r == Err::<Vec<(Value, Value)>, CrushError>(CrushError::ArgumentKind),
            },
    ;

    /// The receiver as text.
    fn text(self) -> (r: CrushResult<String>)
        ensures
            match self.receiver_model() {
                Some(crate::value::ValueModel::String(sm)) => match r {
                    Ok(s) => s@ == sm,
                    Err(_) => false,
                },
                _ => r == Err::<String, CrushError>(CrushError::ArgumentKind),
            },
    ;

    /// The receiver as a record handle.
    fn record(self) -> (r: CrushResult<crate::record::Struct>)
        ensures
            match self.receiver_model() {
                Some(crate::value::ValueModel::Struct(im)) => match r {
                    Ok(s) => s.id as int == im,
                    Err(_) => false,
                },
                _ => r == Err::<crate::record::Struct, CrushError>(CrushError::ArgumentKind),
            },
    ;

    /// The receiver as a file path.
    fn file(self) -> (r: CrushResult<String>)
        ensures
            match self.receiver_model() {
                Some(crate::value::ValueModel::File(fm)) => match r {
                    Ok(f) => f@ == fm,
                    Err(_) => false,
                },
                _ => r == Err::<String, CrushError>(CrushError::ArgumentKind),
            },
    ;
}

impl This for Option<Value> {
    open spec fn receiver_model(self) -> Option<crate::value::ValueModel> {
        match self {
            Some(v) => Some(v.model()),
            None => None,
        }
    }

    fn list(self) -> (r: CrushResult<Vec<Value>>) {
        match self {
            Some(Value::List(l)) => Ok(l),
            _ => Err(CrushError::ArgumentKind),
        }
    }

    fn dict(self) -> (r: CrushResult<Vec<(Value, Value)>>) {
        match self {
            Some(Value::Dict(d)) => Ok(d),
            _ => Err(CrushError::ArgumentKind),
        }
    }

    fn text(self) -> (r: CrushResult<String>) {
        match self {
            Some(Value::String(s)) => Ok(s),
            _ => Err(CrushError::ArgumentKind),
        }
    }

    fn record(self) -> (r: CrushResult<crate::record::Struct>) {
        match self {
            Some(Value::Struct(s)) => Ok(s),
            _ => Err(CrushError::ArgumentKind),
        }
    }

    fn file(self) -> (r: CrushResult<String>) {
        match self {
            Some(Value::File(f)) => Ok(f),
            _ => Err(CrushError::ArgumentKind),
        }
    }
}


/// Whether running stage `j` could block, predicted without executing it: a
/// fixed-native stage by its registered flag, a condition-native stage by
/// whether evaluating any of its unevaluated arguments could block, and a
/// closure by its single stage's own prediction (a multi-stage closure is
/// always predicted to block).
pub open spec fn job_blocking(j: JobModel) -> bool
    decreases j,
{
    match j.command {
        CommandModel::Simple { can_block, .. } => can_block,
        CommandModel::Condition { .. } => exists|i: int|
            0 <= i < j.arguments.len() && valdef_blocking(#[trigger] j.arguments[i].value),
        CommandModel::Closure { jobs, .. } => if jobs.len() == 1 {
            job_blocking(jobs[0])
        } else {
            true
        },
    }
}

/// Whether evaluating an unevaluated argument expression could block: a
/// literal never blocks, a substitution blocks when the job it runs would.
pub open spec fn valdef_blocking(v: ValueDefinitionModel) -> bool
    decreases v,
{
    match v {
        ValueDefinitionModel::Literal(_) => false,
        ValueDefinitionModel::Sub(j) => job_blocking(*j),
    }
}

/// The blocking prediction of a command called with the given unevaluated
/// arguments.
pub open spec fn cmd_blocking(c: CommandModel, args: Seq<ArgumentDefinitionModel>) -> bool {
    match c {
        CommandModel::Simple { can_block, .. } => can_block,
        CommandModel::Condition { .. } => exists|i: int|
            0 <= i < args.len() && valdef_blocking(#[trigger] args[i].value),
        CommandModel::Closure { jobs, .. } => if jobs.len() == 1 {
            job_blocking(jobs[0])
        } else {
            true
        },
    }
}

/// Whether evaluating this unevaluated argument expression could block.
fn valdef_can_block(v: &ValueDefinition) -> (r: bool)
    ensures
        r == valdef_blocking(v.model()),
    decreases v,
{
    match v {
        ValueDefinition::Literal(_) => false,
        ValueDefinition::Sub(j) => job_can_block(j),
    }
}

/// Whether any of the given unevaluated arguments could block.
fn argdefs_can_block(args: &Vec<ArgumentDefinition>) -> (r: bool)
    ensures
        r == exists|i: int|
            0 <= i < argdefs_model(*args).len()
                && valdef_blocking(#[trigger] argdefs_model(*args)[i].value),
    decreases *args,
{
    let n = args.len();
    let mut i: usize = 0;
    while i < n
        invariant
            n == args@.len(),
            i <= n,
            forall|m: int| 0 <= m < i
                ==> !valdef_blocking(#[trigger] argdefs_model(*args)[m].value),
        decreases n - i,
    {
        if valdef_can_block(&args[i].value) {
            proof {
                assert(valdef_blocking(argdefs_model(*args)[i as int].value));
            }
            return true;
        }
        i = i + 1;
    }
    false
}

/// Whether running this stage could block.
fn job_can_block(j: &Job) -> (r: bool)
    ensures
        r == job_blocking(j.model()),
    decreases j,
{
    match &j.command {
        CrushCommand::Simple { can_block, .. } => *can_block,
        CrushCommand::Condition { .. } => argdefs_can_block(&j.arguments),
        CrushCommand::Closure { job_definitions, .. } => {
            if job_definitions.len() == 1 {
                job_can_block(&job_definitions[0])
            } else {
                true
            }
        },
    }
}

impl CrushCommand {
    /// Predicts whether invoking this command with the given unevaluated
    /// arguments could block. A fixed-native command answers its registered
    /// flag; a condition-native command blocks when evaluating any argument
    /// could; a single-stage closure delegates to that stage's own
    /// prediction against its defining scope, and a multi-stage closure is
    /// always predicted to block.
    pub fn can_block(&self, arguments: &Vec<ArgumentDefinition>, _env: &Scope) -> (r: bool)
        ensures
            r == cmd_blocking(self.model(), argdefs_model(*arguments)),
    {
        match self {
            CrushCommand::Simple { can_block, .. } => *can_block,
            CrushCommand::Condition { .. } => argdefs_can_block(arguments),
            CrushCommand::Closure { job_definitions, .. } => {
                if job_definitions.len() == 1 {
                    job_can_block(&job_definitions[0])
                } else {
                    true
                }
            },
        }
    }
}

/// The binding list after a redeclaration: overwrite in place when the
/// name is present, append otherwise. This is exactly what
/// `ScopeTree::redeclare` leaves behind.
pub open spec fn redeclared(
    bs: Seq<(Seq<char>, Value)>,
    name: Seq<char>,
    v: Value,
) -> Seq<(Seq<char>, Value)> {
    if has_binding(bs, name) {
        bs.update(first_match(bs, name), (name, v))
    } else {
        bs.push((name, v))
    }
}

/// The scope arena after redeclaring `name -> v` in scope `s`.
pub open spec fn bind_local(
    t: Seq<ScopeModel>,
    s: int,
    name: Seq<char>,
    v: Value,
) -> Seq<ScopeModel> {
    t.update(s, ScopeModel { bindings: redeclared(t[s].bindings, name, v), ..t[s] })
}

/// The scope arena after binding one call argument into scope `s`: a named
/// argument is redeclared under its name, an unnamed one is not bound.
pub open spec fn bind_argument(t: Seq<ScopeModel>, s: int, a: Argument) -> Seq<ScopeModel> {
    match a.name {
        Some(n) => bind_local(t, s, n@, a.value),
        None => t,
    }
}

/// The scope arena after binding every argument of `args` into scope `s`,
/// in vector order.
pub open spec fn bind_arguments(t: Seq<ScopeModel>, s: int, args: Seq<Argument>) -> Seq<ScopeModel>
    decreases args.len(),
{
    if args.len() == 0 {
        t
    } else {
        bind_arguments(bind_argument(t, s, args[0]), s, args.drop_first())
    }
}

/// The scope arena after binding an optional receiver under the name `this`.
pub open spec fn bind_receiver(t: Seq<ScopeModel>, s: int, this: Option<Value>) -> Seq<ScopeModel> {
    match this {
        Some(v) => bind_local(t, s, "this"@, v),
        None => t,
    }
}

/// The fresh child scope a closure invocation creates: lexical parent is the
/// captured defining scope, dynamic caller is the invoking environment.
pub open spec fn closure_child_model(env: int, caller: int) -> ScopeModel {
    ScopeModel {
        parent: Some(env),
        caller: Some(caller),
        uses: Seq::empty(),
        bindings: Seq::empty(),
        is_loop: false,
        is_stopped: false,
        is_readonly: false,
    }
}

/// The native operation behind a native command variant.
pub open spec fn stage_op(c: CommandModel) -> NativeOp {
    match c {
        CommandModel::Simple { op, .. } => op,
        CommandModel::Condition { op } => op,
        CommandModel::Closure { .. } => arbitrary(),
    }
}

/// What a single native stage run with no arguments does to the channels:
/// `Pass` drains the input into the output, and the remaining operations
/// leave every channel as it was.
pub open spec fn native_stage_streams(
    op: NativeOp,
    a: Seq<ChannelModel>,
    b: Seq<ChannelModel>,
    ic: int,
    oc: int,
    r: CrushResult<()>,
) -> bool {
    match op {
        NativeOp::Pass => if ic == oc {
            &&& r == Err::<(), CrushError>(CrushError::Generic)
            &&& b == a
        } else {
            &&& r == Ok::<(), CrushError>(())
            &&& b =~~= a.update(
                ic,
                ChannelModel {
                    rows: blank_range(a[ic].rows, a[ic].read_pos, a[ic].rows.len() as int),
                    read_pos: a[ic].rows.len() as int,
                },
            ).update(
                oc,
                ChannelModel {
                    rows: a[oc].rows + a[ic].rows.subrange(a[ic].read_pos, a[ic].rows.len() as int),
                    read_pos: a[oc].read_pos,
                },
            )
        },
        NativeOp::Echo => {
            &&& r == Ok::<(), CrushError>(())
            &&& b =~~= a
        },
        NativeOp::Break => {
            &&& r == Ok::<(), CrushError>(())
            &&& b == a
        },
        NativeOp::Continue => {
            &&& r == Ok::<(), CrushError>(())
            &&& b == a
        },
        NativeOp::For => true,
    }
}

/// The values carried by a vector of arguments, in order.
pub open spec fn arg_values(args: Vec<Argument>) -> Seq<Value> {
    args@.map_values(|a: Argument| a.value)
}

/// A row sequence with the positions `lo..hi` surrendered.
pub open spec fn blank_range(rows: Seq<Value>, lo: int, hi: int) -> Seq<Value> {
    Seq::new(rows.len(), |i: int| if lo <= i < hi {
        Value::Empty
    } else {
        rows[i]
    })
}

/// What each native operation does to the machine, and what it returns.
pub open spec fn native_post(
    op: NativeOp,
    a: Vm,
    b: Vm,
    ctx: ExecutionContext,
    r: CrushResult<()>,
) -> bool {
    match op {
        NativeOp::Echo => {
            &&& r == Ok::<(), CrushError>(())
            &&& b.scopes@ == a.scopes@
            &&& b.structs@ == a.structs@
            &&& b.streams@ == a.streams@.update(
                ctx.output.channel as int,
                ChannelModel {
                    rows: a.streams@[ctx.output.channel as int].rows + arg_values(ctx.arguments),
                    read_pos: a.streams@[ctx.output.channel as int].read_pos,
                },
            )
        },
        NativeOp::Pass => {
            if ctx.input.channel == ctx.output.channel {
                &&& r == Err::<(), CrushError>(CrushError::Generic)
                &&& b.scopes@ == a.scopes@
                &&& b.structs@ == a.structs@
                &&& b.streams@ == a.streams@
            } else {
                let ic = ctx.input.channel as int;
                let oc = ctx.output.channel as int;
                let im = a.streams@[ic];
                let om = a.streams@[oc];
                &&& r == Ok::<(), CrushError>(())
                &&& b.scopes@ == a.scopes@
                &&& b.structs@ == a.structs@
                &&& b.streams@ =~~= a.streams@.update(
                    ic,
                    ChannelModel {
                        rows: blank_range(im.rows, im.read_pos, im.rows.len() as int),
                        read_pos: im.rows.len() as int,
                    },
                ).update(
                    oc,
                    ChannelModel {
                        rows: om.rows + im.rows.subrange(im.read_pos, im.rows.len() as int),
                        read_pos: om.read_pos,
                    },
                )
            }
        },
        NativeOp::Break => {
            &&& r == Ok::<(), CrushError>(())
            &&& b.structs@ == a.structs@
            &&& b.streams@ == a.streams@
            &&& if signal_target(a.scopes@, ctx.env.id as int) is Some {
                &&& b.scopes@.len() == a.scopes@.len()
                &&& forall|i: int| 0 <= i < a.scopes@.len()
                    ==> b.scopes@[i] == (if break_marks(a.scopes@, ctx.env.id as int, i) {
                        (#[trigger] a.scopes@[i]).stopped()
                    } else {
                        a.scopes@[i]
                    })
            } else {
                b.scopes@ == a.scopes@
            }
        },
        NativeOp::Continue => {
            &&& r == Ok::<(), CrushError>(())
            &&& b.structs@ == a.structs@
            &&& b.streams@ == a.streams@
            &&& if signal_target(a.scopes@, ctx.env.id as int) is Some {
                &&& b.scopes@.len() == a.scopes@.len()
                &&& forall|i: int| 0 <= i < a.scopes@.len()
                    ==> b.scopes@[i] == (if continue_marks(a.scopes@, ctx.env.id as int, i) {
                        (#[trigger] a.scopes@[i]).stopped()
                    } else {
                        a.scopes@[i]
                    })
            } else {
                b.scopes@ == a.scopes@
            }
        },
        NativeOp::For => {
            let oc = ctx.output.channel as int;
            &&& b.streams@[oc] == (ChannelModel {
                rows: a.streams@[oc].rows.push(Value::Empty),
                read_pos: a.streams@[oc].read_pos,
            })
            &&& forall|c: int| 0 <= c < a.streams@.len() && c != oc
                ==> b.streams@[c] == a.streams@[c]
            &&& (ctx.arguments@.len() != 2 ==> r == Err::<(), CrushError>(
                CrushError::ArgumentArity { expected: 2, actual: ctx.arguments@.len() as usize },
            ))
            &&& (ctx.arguments@.len() == 2 && !(args_model(ctx.arguments)[1].value is Command)
                ==> r == Err::<(), CrushError>(CrushError::ArgumentKind))
            &&& (ctx.arguments@.len() == 2 && args_model(ctx.arguments)[1].value is Command
                && !(args_model(ctx.arguments)[0].value is List
                    || args_model(ctx.arguments)[0].value is Dict
                    || args_model(ctx.arguments)[0].value is Struct)
                ==> r == Err::<(), CrushError>(CrushError::Generic))
        },
    }
}

/// Runs one native operation against the machine.
fn run_native(op: NativeOp, context: ExecutionContext, vm: &mut Vm, budget: u64) -> (r: CrushResult<()>)
    requires
        old(vm).wf(),
        old(vm).scopes.valid(context.env.id as int),
        old(vm).streams.valid(context.input.channel as int),
        old(vm).streams.valid(context.output.channel as int),
        budget > 0,
    ensures
        final(vm).wf(),
        vm_extends(*old(vm), *final(vm)),
        native_post(op, *old(vm), *final(vm), context, r),
        forall|i: int| old(vm).stage_log@.len() <= i < final(vm).stage_log@.len()
            ==> ((#[trigger] final(vm).stage_log@[i]).direct
                ==> final(vm).stage_log@[i].env >= old(vm).scopes@.len()),
    decreases budget, 2int,
{
    match op {
        NativeOp::Echo => {
            let ExecutionContext { output, arguments, .. } = context;
            let mut args = arguments;
            let ghost vals = arg_values(args);
            let n = args.len();
            let mut i: usize = 0;
            proof {
                assert(old(vm).streams@[output.channel as int].rows + vals.take(0)
                    =~= old(vm).streams@[output.channel as int].rows);
                assert(vm.streams@ =~= old(vm).streams@.update(
                    output.channel as int,
                    ChannelModel {
                        rows: old(vm).streams@[output.channel as int].rows + vals.take(0),
                        read_pos: old(vm).streams@[output.channel as int].read_pos,
                    },
                ));
            }
            while i < n
                invariant
                    n == vals.len(),
                    args@.len() == n - i,
                    i <= n,
                    forall|m: int| 0 <= m < args@.len() ==> #[trigger] args@[m].value == vals[i + m],
                    old(vm).streams.valid(output.channel as int),
                    vm.scopes == old(vm).scopes,
                    vm.structs == old(vm).structs,
                    vm.stage_log == old(vm).stage_log,
                    vm.streams@ == old(vm).streams@.update(
                        output.channel as int,
                        ChannelModel {
                            rows: old(vm).streams@[output.channel as int].rows + vals.take(i as int),
                            read_pos: old(vm).streams@[output.channel as int].read_pos,
                        },
                    ),
                decreases n - i,
            {
                let a = args.remove(0);
                vm.streams.send(output, a.value);
                proof {
                    assert(old(vm).streams@[output.channel as int].rows + vals.take(i as int + 1)
                        =~= (old(vm).streams@[output.channel as int].rows + vals.take(i as int)).push(
                            vals[i as int],
                        ));
                    assert(vm.streams@ =~= old(vm).streams@.update(
                        output.channel as int,
                        ChannelModel {
                            rows: old(vm).streams@[output.channel as int].rows + vals.take(i as int + 1),
                            read_pos: old(vm).streams@[output.channel as int].read_pos,
                        },
                    ));
                }
                i = i + 1;
            }
            proof {
                assert(vals.take(n as int) =~= vals);
            }
            Ok(())
        },
        NativeOp::Pass => {
            let ExecutionContext { input, output, .. } = context;
            if input.channel == output.channel {
                return Err(CrushError::Generic);
            }
            let ghost ic = input.channel as int;
            let ghost oc = output.channel as int;
            let ghost im = old(vm).streams@[ic];
            let ghost om = old(vm).streams@[oc];
            let ghost p0 = im.read_pos;
            let ghost total = im.rows.len() as int;
            let ghost mut p: int = p0;
            proof {
                assert(0 <= p0 <= total);
                assert(blank_range(im.rows, p0, p0) =~= im.rows);
                assert(om.rows + im.rows.subrange(p0, p0) =~= om.rows);
                assert(vm.streams@ =~~= old(vm).streams@.update(
                    ic,
                    ChannelModel { rows: blank_range(im.rows, p0, p0), read_pos: p0 },
                ).update(
                    oc,
                    ChannelModel {
                        rows: om.rows + im.rows.subrange(p0, p0),
                        read_pos: om.read_pos,
                    },
                ));
            }
            loop
                invariant
                    old(vm).streams.valid(ic),
                    old(vm).streams.valid(oc),
                    ic != oc,
                    input.channel as int == ic,
                    output.channel as int == oc,
                    im == old(vm).streams@[ic],
                    om == old(vm).streams@[oc],
                    p0 == im.read_pos,
                    total == im.rows.len(),
                    vm.scopes == old(vm).scopes,
                    vm.structs == old(vm).structs,
                    vm.stage_log == old(vm).stage_log,
                    p0 <= p <= total,
                    vm.streams@ =~~= old(vm).streams@.update(
                        ic,
                        ChannelModel { rows: blank_range(im.rows, p0, p), read_pos: p },
                    ).update(
                        oc,
                        ChannelModel {
                            rows: om.rows + im.rows.subrange(p0, p),
                            read_pos: om.read_pos,
                        },
                    ),
                ensures
                    p == total,
                    vm.scopes == old(vm).scopes,
                    vm.structs == old(vm).structs,
                    vm.stage_log == old(vm).stage_log,
                    vm.streams@ =~~= old(vm).streams@.update(
                        ic,
                        ChannelModel { rows: blank_range(im.rows, p0, p), read_pos: p },
                    ).update(
                        oc,
                        ChannelModel {
                            rows: om.rows + im.rows.subrange(p0, p),
                            read_pos: om.read_pos,
                        },
                    ),
                decreases total - p,
            {
                proof {
                    assert(vm.streams@[ic] == ChannelModel {
                        rows: blank_range(im.rows, p0, p),
                        read_pos: p,
                    });
                    assert(vm.streams@[ic].rows.len() == total);
                }
                match vm.streams.recv(input) {
                    Ok(v) => {
                        proof {
                            assert(p < total);
                            assert(blank_range(im.rows, p0, p)[p] == im.rows[p]);
                            assert(v == im.rows[p]);
                            assert(blank_range(im.rows, p0, p).update(p, Value::Empty)
                                =~= blank_range(im.rows, p0, p + 1));
                        }
                        vm.streams.send(output, v);
                        proof {
                            assert((om.rows + im.rows.subrange(p0, p)).push(im.rows[p])
                                =~= om.rows + im.rows.subrange(p0, p + 1));
                            assert(vm.streams@ =~~= old(vm).streams@.update(
                                ic,
                                ChannelModel {
                                    rows: blank_range(im.rows, p0, p + 1),
                                    read_pos: p + 1,
                                },
                            ).update(
                                oc,
                                ChannelModel {
                                    rows: om.rows + im.rows.subrange(p0, p + 1),
                                    read_pos: om.read_pos,
                                },
                            ));
                            p = p + 1;
                        }
                    },
                    Err(_) => {
                        proof {
                            assert(p >= total);
                        }
                        break;
                    },
                }
            }
            proof {
                assert(vm.streams@ =~~= old(vm).streams@.update(
                    ic,
                    ChannelModel {
                        rows: blank_range(im.rows, im.read_pos, im.rows.len() as int),
                        read_pos: im.rows.len() as int,
                    },
                ).update(
                    oc,
                    ChannelModel {
                        rows: om.rows + im.rows.subrange(im.read_pos, im.rows.len() as int),
                        read_pos: om.read_pos,
                    },
                ));
            }
            Ok(())
        },
        NativeOp::Break => {
            vm.scopes.do_break(context.env);
            Ok(())
        },
        NativeOp::Continue => {
            vm.scopes.do_continue(context.env);
            Ok(())
        },
        NativeOp::For => crate::control::for_loop(context, vm, budget),
    }
}


/// Binds every named argument into scope `env`, in vector order; unnamed
/// (positional) arguments are not bound. The argument vector is consumed.
fn push_arguments_to_env(arguments: Vec<Argument>, env: Scope, vm: &mut Vm)
    requires
        old(vm).wf(),
        old(vm).scopes.valid(env.id as int),
    ensures
        final(vm).wf(),
        final(vm).scopes@ == bind_arguments(old(vm).scopes@, env.id as int, arguments@),
        final(vm).structs == old(vm).structs,
        final(vm).streams == old(vm).streams,
        final(vm).stage_log == old(vm).stage_log,
{
    let ghost orig = arguments@;
    let mut args = arguments;
    while args.len() > 0
        invariant
            vm.wf(),
            vm.scopes.valid(env.id as int),
            vm.structs == old(vm).structs,
            vm.streams == old(vm).streams,
            vm.stage_log == old(vm).stage_log,
            bind_arguments(vm.scopes@, env.id as int, args@)
                == bind_arguments(old(vm).scopes@, env.id as int, orig),
        decreases args@.len(),
    {
        let ghost before = vm.scopes@;
        let ghost pending = args@;
        let a = args.remove(0);
        let Argument { name, value } = a;
        match name {
            Some(n) => {
                vm.scopes.redeclare(env, n.as_str(), value);
                proof {
                    assert(vm.scopes@ == bind_argument(before, env.id as int, pending[0]));
                }
            },
            None => {
                proof {
                    assert(vm.scopes@ == bind_argument(before, env.id as int, pending[0]));
                }
            },
        }
        proof {
            assert(args@ =~= pending.drop_first());
            assert(bind_arguments(before, env.id as int, pending)
                == bind_arguments(vm.scopes@, env.id as int, args@));
        }
    }
}

/// Binding arguments into scope `s` touches nothing but that scope's
/// bindings: every other scope, and every other field of `s`, is unchanged.
proof fn lemma_bind_arguments_frame(t: Seq<ScopeModel>, s: int, args: Seq<Argument>)
    requires
        0 <= s < t.len(),
    ensures
        ({
            let b = bind_arguments(t, s, args);
            &&& b.len() == t.len()
            &&& forall|i: int| 0 <= i < t.len() && i != s ==> b[i] == t[i]
            &&& b[s].parent == t[s].parent
            &&& b[s].caller == t[s].caller
            &&& b[s].uses == t[s].uses
            &&& b[s].is_loop == t[s].is_loop
            &&& b[s].is_stopped == t[s].is_stopped
            &&& b[s].is_readonly == t[s].is_readonly
        }),
    decreases args.len(),
{
    if args.len() > 0 {
        let t1 = bind_argument(t, s, args[0]);
        assert(t1.len() == t.len());
        lemma_bind_arguments_frame(t1, s, args.drop_first());
    }
}

/// Runs one pipeline stage: evaluates the stage's unevaluated arguments (a
/// literal is copied; a substitution runs its job against a fresh pipe and
/// takes the first value it sent, or nothing), then invokes the stage's
/// command with the given streams.
fn run_job(
    job: &Job,
    env: Scope,
    input: ValueReceiver,
    output: ValueSender,
    vm: &mut Vm,
    budget: u64,
    Ghost(direct): Ghost<bool>,
) -> (r: CrushResult<()>)
    requires
        old(vm).wf(),
        old(vm).scopes.valid(env.id as int),
        old(vm).streams.valid(input.channel as int),
        old(vm).streams.valid(output.channel as int),
    ensures
        final(vm).wf(),
        vm_extends(*old(vm), *final(vm)),
        forall|c: int| 0 <= c < old(vm).streams@.len() && c != input.channel as int
            && c != output.channel as int
            ==> final(vm).streams@[c] == old(vm).streams@[c],
        budget >= 2 && job.arguments@.len() == 0
            && (job.command is Simple || job.command is Condition)
            ==> native_stage_streams(
                stage_op(job.command.model()),
                old(vm).streams@,
                final(vm).streams@,
                input.channel as int,
                output.channel as int,
                r,
            ),
        final(vm).stage_log@.len() > old(vm).stage_log@.len(),
        final(vm).stage_log@.last() == (StageRun {
            job: job.model(),
            env: env.id as int,
            input: input.channel as int,
            output: output.channel as int,
            direct,
            result: r,
        }),
        forall|i: int| old(vm).stage_log@.len() <= i < final(vm).stage_log@.len() - 1
            ==> ((#[trigger] final(vm).stage_log@[i]).direct
                ==> final(vm).stage_log@[i].env > env.id as int),
    decreases budget, 2int,
{
    if budget == 0 {
        vm.stage_log = Ghost(vm.stage_log@.push(StageRun {
            job: job.model(),
            env: env.id as int,
            input: input.channel as int,
            output: output.channel as int,
            direct,
            result: Err(CrushError::Generic),
        }));
        return Err(CrushError::Generic);
    }
    let mut args: Vec<Argument> = Vec::new();
    let defs = &job.arguments;
    let n = defs.len();
    let mut i: usize = 0;
    while i < n
        invariant
            n == defs@.len(),
            n == job.arguments@.len(),
            i <= n,
            args@.len() == i,
            budget > 0,
            vm.wf(),
            vm_extends(*old(vm), *vm),
            vm.scopes.valid(env.id as int),
            vm.streams.valid(input.channel as int),
            vm.streams.valid(output.channel as int),
            forall|c: int| 0 <= c < old(vm).streams@.len()
                ==> vm.streams@[c] == old(vm).streams@[c],
            n == 0 ==> *vm == *old(vm),
            forall|i: int| old(vm).stage_log@.len() <= i < vm.stage_log@.len()
                ==> ((#[trigger] vm.stage_log@[i]).direct
                    ==> vm.stage_log@[i].env > env.id as int),
        decreases n - i,
    {
        let ghost vm_before = *vm;
        match &defs[i].value {
            ValueDefinition::Literal(v) => {
                let name = match &defs[i].name {
                    Some(s) => Some(s.clone()),
                    None => None,
                };
                args.push(Argument { name, value: v.dup() });
            },
            ValueDefinition::Sub(j) => {
                let (snd, rcv) = vm.streams.pipe();
                let ein = vm.streams.empty_channel();
                if let Err(e) = run_job(j, env, ein, snd, vm, budget - 1, Ghost(false)) {
                    vm.stage_log = Ghost(vm.stage_log@.push(StageRun {
                        job: job.model(),
                        env: env.id as int,
                        input: input.channel as int,
                        output: output.channel as int,
                        direct,
                        result: Err(e),
                    }));
                    proof {
                        lemma_vm_extends_trans(*old(vm), vm_before, *vm);
                    }
                    return Err(e);
                }
                let v = match vm.streams.recv(rcv) {
                    Ok(v) => v,
                    Err(_) => Value::Empty,
                };
                let name = match &defs[i].name {
                    Some(s) => Some(s.clone()),
                    None => None,
                };
                args.push(Argument { name, value: v });
                proof {
                    lemma_vm_extends_trans(*old(vm), vm_before, *vm);
                }
            },
        }
        i = i + 1;
    }
    let ctx = ExecutionContext { input, output, arguments: args, env, this: None };
    let ghost vm_before_invoke = *vm;
    let ghost ctx_args = ctx.arguments;
    let r = job.command.invoke(ctx, vm, budget - 1);
    vm.stage_log = Ghost(vm.stage_log@.push(StageRun {
        job: job.model(),
        env: env.id as int,
        input: input.channel as int,
        output: output.channel as int,
        direct,
        result: r,
    }));
    proof {
        lemma_vm_extends_trans(*old(vm), vm_before_invoke, *vm);
        if budget >= 2 && defs@.len() == 0 && (job.command is Simple || job.command is Condition) {
            assert(vm_before_invoke == *old(vm));
            assert(arg_values(ctx_args) =~= Seq::<Value>::empty());
            assert(old(vm).streams@[output.channel as int].rows + arg_values(ctx_args)
                =~= old(vm).streams@[output.channel as int].rows);
            if stage_op(job.command.model()) is Echo {
                assert(vm.streams@ =~~= old(vm).streams@);
            }
        }
    }
    r
}

impl CrushCommand {
    /// Invokes this command. A native variant runs its operation. A closure
    /// creates a child scope whose lexical parent is the captured defining
    /// scope and whose dynamic caller is the invoking context's environment,
    /// binds the receiver (under the name `this`) and every named argument
    /// into it, then runs its ordered stages as a pipeline: the first stage
    /// reads the call's input, the last writes the call's output, and every
    /// intermediate boundary is a background sink; after each stage the
    /// shared child scope's stop flag is consulted, and a stopped pipeline
    /// returns success without running the remaining stages. Among the
    /// channels that existed at the call, only the call's own input and
    /// output can change: stages may rebind variables, but write nowhere
    /// else.
    ///
    /// The machine's ghost stage log records every completed stage run. The
    /// contract pins the runs this invocation owns (those whose environment
    /// is the fresh child scope): they follow the stage list in order, every
    /// run but the last succeeded, a failing run's error is returned
    /// unchanged, and when every recorded run succeeded — including a
    /// stopped pipeline that ran only a prefix — the invocation reports
    /// success. The first run reads the call's input, the last run of a
    /// fully executed multi-stage pipeline writes the call's output, and
    /// every other stage boundary is a freshly created channel.
    ///
    /// `budget` bounds the nesting depth of command invocations; a program
    /// that nests deeper fails with a `Generic` error rather than recursing
    /// without bound.
    pub fn invoke(&self, context: ExecutionContext, vm: &mut Vm, budget: u64) -> (r: CrushResult<()>)
        requires
            old(vm).wf(),
            old(vm).scopes.valid(context.env.id as int),
            old(vm).streams.valid(context.input.channel as int),
            old(vm).streams.valid(context.output.channel as int),
        ensures
            final(vm).wf(),
            vm_extends(*old(vm), *final(vm)),
            forall|c: int| 0 <= c < old(vm).streams@.len() && c != context.input.channel as int
                && c != context.output.channel as int
                ==> final(vm).streams@[c] == old(vm).streams@[c],
            forall|i: int| old(vm).stage_log@.len() <= i < final(vm).stage_log@.len()
                ==> ((#[trigger] final(vm).stage_log@[i]).direct
                    ==> final(vm).stage_log@[i].env >= old(vm).scopes@.len()),
            budget == 0 ==> r == Err::<(), CrushError>(CrushError::Generic) && *final(vm) == *old(vm),
            budget > 0 ==> match self.model() {
                CommandModel::Simple { op, .. } => native_post(op, *old(vm), *final(vm), context, r),
                CommandModel::Condition { op } => native_post(op, *old(vm), *final(vm), context, r),
                CommandModel::Closure { jobs, env } => if 0 <= env < old(vm).scopes@.len() {
                    let child = old(vm).scopes@.len() as int;
                    &&& final(vm).scopes@.len() > old(vm).scopes@.len()
                    &&& final(vm).scopes@[child].parent == Some(env)
                    &&& final(vm).scopes@[child].caller == Some(context.env.id as int)
                    &&& !final(vm).scopes@[child].is_loop
                    &&& !final(vm).scopes@[child].is_readonly
                    &&& (jobs.len() == 0 ==> {
                        &&& r == Err::<(), CrushError>(CrushError::EmptyBody)
                        &&& final(vm).scopes@ == bind_arguments(
                            bind_receiver(
                                old(vm).scopes@.push(closure_child_model(env, context.env.id as int)),
                                child,
                                context.this,
                            ),
                            child,
                            context.arguments@,
                        )
                        &&& final(vm).structs == old(vm).structs
                        &&& final(vm).streams == old(vm).streams
                    })
                    &&& (budget >= 3 && jobs.len() == 1 && jobs[0].arguments.len() == 0
                        && (jobs[0].command is Simple || jobs[0].command is Condition)
                        ==> native_stage_streams(
                            stage_op(jobs[0].command),
                            old(vm).streams@,
                            final(vm).streams@,
                            context.input.channel as int,
                            context.output.channel as int,
                            r,
                        ))
                    &&& (jobs.len() >= 1 ==> ({
                        let runs = stage_runs(
                            final(vm).stage_log@,
                            old(vm).stage_log@.len() as int,
                            final(vm).stage_log@.len() as int,
                            child,
                        );
                        &&& 1 <= runs.len() <= jobs.len()
                        &&& (forall|k: int| 0 <= k < runs.len()
                            ==> (#[trigger] runs[k]).job == jobs[k])
                        &&& (forall|k: int| 0 <= k < runs.len() - 1
                            ==> (#[trigger] runs[k]).result is Ok)
                        &&& (runs.last().result matches Err(e) ==> r == Err::<(), CrushError>(e))
                        &&& ((forall|k: int| 0 <= k < runs.len()
                            ==> (#[trigger] runs[k]).result is Ok)
                            ==> r == Ok::<(), CrushError>(()))
                        &&& runs[0].input == context.input.channel as int
                        &&& (jobs.len() == 1 ==> runs[0].output == context.output.channel as int)
                        &&& (jobs.len() >= 2 && runs.len() == jobs.len()
                            ==> runs.last().output == context.output.channel as int)
                        &&& (forall|k: int| 1 <= k < runs.len()
                            ==> (#[trigger] runs[k]).input >= old(vm).streams@.len())
                        &&& (jobs.len() >= 2 ==> forall|k: int| 0 <= k < runs.len() && k < jobs.len() - 1
                            ==> (#[trigger] runs[k]).output >= old(vm).streams@.len())
                    }))
                } else {
                    &&& r == Err::<(), CrushError>(CrushError::Generic)
                    &&& *final(vm) == *old(vm)
                },
            },
        decreases budget, 3int,
    {
        if budget == 0 {
            return Err(CrushError::Generic);
        }
        match self {
            CrushCommand::Simple { op, .. } => run_native(*op, context, vm, budget),
            CrushCommand::Condition { op } => run_native(*op, context, vm, budget),
            CrushCommand::Closure { job_definitions, env } => {
                let ExecutionContext { input, output, arguments, env: caller_env, this } = context;
                if env.id >= vm.scopes.len() {
                    return Err(CrushError::Generic);
                }
                let ghost vm0 = *vm;
                let child = vm.scopes.create_child(*env, caller_env, false);
                let ghost child_idx = child.id as int;
                proof {
                    assert(vm.scopes@ =~~= vm0.scopes@.push(closure_child_model(
                        env.id as int,
                        caller_env.id as int,
                    )));
                }
                match this {
                    Some(t) => {
                        vm.scopes.redeclare(child, "this", t);
                        proof {
                            assert(vm.scopes@ == bind_receiver(
                                vm0.scopes@.push(closure_child_model(env.id as int, caller_env.id as int)),
                                child_idx,
                                context.this,
                            ));
                        }
                    },
                    None => {},
                }
                let ghost after_this = vm.scopes@;
                push_arguments_to_env(arguments, child, vm);
                proof {
                    lemma_bind_arguments_frame(after_this, child_idx, context.arguments@);
                    assert(vm.scopes@[child_idx].parent == Some(env.id as int));
                    assert(vm.scopes@[child_idx].caller == Some(caller_env.id as int));
                    assert(!vm.scopes@[child_idx].is_loop);
                    assert(!vm.scopes@[child_idx].is_stopped);
                    assert(!vm.scopes@[child_idx].is_readonly);
                }
                let n = job_definitions.len();
                if n == 0 {
                    return Err(CrushError::EmptyBody);
                }
                let ghost vm1 = *vm;
                proof {
                    assert(vm_extends(vm0, vm1));
                }
                let ghost logbase = vm0.stage_log@.len() as int;
                if n == 1 {
                    if vm.scopes.is_stopped(child) {
                        return Ok(());
                    }
                    let ghost logpre = vm.stage_log@;
                    let r = run_job(&job_definitions[0], child, input, output, vm, budget - 1, Ghost(true));
                    proof {
                        lemma_vm_extends_trans(vm0, vm1, *vm);
                        assert(vm1.streams == vm0.streams);
                        assert(jobs_model(*job_definitions)[0] == job_definitions@[0].model());
                        assert(argdefs_model(job_definitions[0].arguments).len()
                            == job_definitions@[0].arguments@.len());
                        assert(logpre == vm0.stage_log@);
                        lemma_runs_extend(logpre, vm.stage_log@, logbase, child_idx);
                        assert(stage_runs(logpre, logbase, logpre.len() as int, child_idx)
                            =~= Seq::<StageRun>::empty());
                        assert(stage_runs(vm.stage_log@, logbase, vm.stage_log@.len() as int, child_idx)
                            =~= seq![vm.stage_log@.last()]);
                    }
                    return match r {
                        Ok(()) => Ok(()),
                        Err(e) => Err(e),
                    };
                }
                if vm.scopes.is_stopped(child) {
                    return Ok(());
                }
                let sink = vm.streams.black_hole();
                let ghost vm2 = *vm;
                proof {
                    lemma_vm_extends_trans(vm0, vm1, vm2);
                }
                let ghost logpre0 = vm.stage_log@;
                let r0 = run_job(&job_definitions[0], child, input, sink, vm, budget - 1, Ghost(true));
                let ghost mut runs_acc: Seq<StageRun> = seq![vm.stage_log@.last()];
                proof {
                    lemma_vm_extends_trans(vm0, vm2, *vm);
                    assert(logpre0 == vm0.stage_log@);
                    lemma_runs_extend(logpre0, vm.stage_log@, logbase, child_idx);
                    assert(stage_runs(logpre0, logbase, logpre0.len() as int, child_idx)
                        =~= Seq::<StageRun>::empty());
                    assert(stage_runs(vm.stage_log@, logbase, vm.stage_log@.len() as int, child_idx)
                        =~= runs_acc);
                    assert(jobs_model(*job_definitions)[0] == job_definitions@[0].model());
                }
                if let Err(e) = r0 {
                    return Err(e);
                }
                if vm.scopes.is_stopped(child) {
                    return Ok(());
                }
                let mut i: usize = 1;
                while i < n - 1
                    invariant
                        vm0 == *old(vm),
                        env.id < vm0.scopes@.len(),
                        self == (CrushCommand::Closure {
                            job_definitions: *job_definitions,
                            env: *env,
                        }),
                        caller_env == context.env,
                        input == context.input,
                        output == context.output,
                        1 <= i <= n - 1,
                        n == job_definitions@.len(),
                        n >= 2,
                        budget > 0,
                        vm.wf(),
                        vm_extends(vm0, *vm),
                        vm.scopes.valid(child_idx),
                        child.id as int == child_idx,
                        child_idx == vm0.scopes@.len(),
                        vm.scopes@.len() > vm0.scopes@.len(),
                        vm.scopes@[child_idx].parent == Some(env.id as int),
                        vm.scopes@[child_idx].caller == Some(caller_env.id as int),
                        !vm.scopes@[child_idx].is_loop,
                        !vm.scopes@[child_idx].is_readonly,
                        vm.streams.valid(input.channel as int),
                        vm.streams.valid(output.channel as int),
                        forall|c: int| 0 <= c < vm0.streams@.len()
                            && c != input.channel as int && c != output.channel as int
                            ==> vm.streams@[c] == vm0.streams@[c],
                        logbase == vm0.stage_log@.len() as int,
                        runs_acc == stage_runs(
                            vm.stage_log@,
                            logbase,
                            vm.stage_log@.len() as int,
                            child_idx,
                        ),
                        runs_acc.len() == i,
                        forall|k: int| 0 <= k < i
                            ==> (#[trigger] runs_acc[k]).job == jobs_model(*job_definitions)[k],
                        forall|k: int| 0 <= k < i ==> (#[trigger] runs_acc[k]).result is Ok,
                        runs_acc[0].input == input.channel as int,
                        forall|k: int| 1 <= k < i
                            ==> (#[trigger] runs_acc[k]).input >= vm0.streams@.len(),
                        forall|k: int| 0 <= k < i
                            ==> (#[trigger] runs_acc[k]).output >= vm0.streams@.len(),
                        forall|j: int| logbase <= j < vm.stage_log@.len()
                            ==> ((#[trigger] vm.stage_log@[j]).direct
                                ==> vm.stage_log@[j].env >= vm0.scopes@.len()),
                    decreases n - i,
                {
                    let ghost vmi = *vm;
                    let ein = vm.streams.empty_channel();
                    let sink2 = vm.streams.black_hole();
                    let ghost logpre = vm.stage_log@;
                    let ri = run_job(&job_definitions[i], child, ein, sink2, vm, budget - 1, Ghost(true));
                    proof {
                        lemma_vm_extends_trans(vm0, vmi, *vm);
                        lemma_runs_extend(logpre, vm.stage_log@, logbase, child_idx);
                        assert(jobs_model(*job_definitions)[i as int]
                            == job_definitions@[i as int].model());
                        runs_acc = runs_acc.push(vm.stage_log@.last());
                    }
                    if let Err(e) = ri {
                        return Err(e);
                    }
                    if vm.scopes.is_stopped(child) {
                        return Ok(());
                    }
                    i = i + 1;
                }
                let ghost vml = *vm;
                let ein = vm.streams.empty_channel();
                let ghost logprel = vm.stage_log@;
                let rl = run_job(&job_definitions[n - 1], child, ein, output, vm, budget - 1, Ghost(true));
                proof {
                    lemma_vm_extends_trans(vm0, vml, *vm);
                    lemma_runs_extend(logprel, vm.stage_log@, logbase, child_idx);
                    assert(jobs_model(*job_definitions)[n - 1]
                        == job_definitions@[n - 1].model());
                    runs_acc = runs_acc.push(vm.stage_log@.last());
                }
                match rl {
                    Ok(()) => Ok(()),
                    Err(e) => Err(e),
                }
            },
        }
    }
}

} // verus!
