//! The code generator: walks statements and expressions of the AST, makes
//! its type decisions through the inference engine, tracks bindings through
//! the scope manager, and emits IR instructions, functions and blocks.

use vstd::prelude::*;
use vstd::string::StringExecFns;
use crate::shared::{str_eq, CompileError, Kind, KindName, Node};
use crate::ir::{
    body_extended, body_view, fn_header_eq, instr_view, lemma_body_view_concat,
    lemma_extended_at_extends, lemma_extended_at_refl, lemma_extended_at_trans,
    lemma_module_extends_refl, lemma_module_extends_trans, module_extended_at, module_extends,
    BinOp, Instr, InstrView, IrFunction, IrModule, Value,
};
use crate::scope::{frame_contains, scope_declared, scope_lookup, BlockScope, Frame, ScopeType};

verus! {

/// The arithmetic operation a binary operator denotes, if it is one of the
/// four the language supports.
pub open spec fn bin_op_of(s: Seq<char>) -> Option<BinOp> {
    if s == "+"@ {
        Some(BinOp::Add)
    } else if s == "-"@ {
        Some(BinOp::Sub)
    } else if s == "*"@ {
        Some(BinOp::Mul)
    } else if s == "/"@ {
        Some(BinOp::Div)
    } else {
        None
    }
}

/// What lowering one expression at position `pos` of the current block
/// emits and yields, under a given scope stack. `pos` is the index the next
/// instruction would get; registers in the result are relative to it. The
/// result value is `None` exactly for a call to a void function; every
/// error is fixed by kind:
/// - an identifier or callee that no visible frame binds is `UnknownSymbol`
///   (for a callee, so is a binding that is not a function);
/// - a binding without storage used as a value or an assignment target, a
///   function name in value position, and a void call in a position that
///   needs the value are `VoidValue`;
/// - an operator outside the four arithmetic ones is `UnsupportedOperator`;
/// - an assignment target that is no identifier, a callee that is no
///   identifier, and any non-expression node are `MalformedNode`.
///
/// An error also carries exactly the instructions the failed lowering had
/// emitted before it stopped — none for the errors above that are found
/// before anything is lowered, and the finished sub-expressions' runs (in
/// particular, never the final store, call or arithmetic instruction) for
/// the rest.
pub open spec fn expr_out(frames: Seq<Frame>, pos: int, node: Node) -> Result<
    (Seq<InstrView>, Option<Value>),
    (Seq<InstrView>, CompileError),
>
    decreases node, 1int, 0int,
{
    match node {
        Node::NumberLiteral { value } => Ok(
            (Seq::<InstrView>::empty(), Some(Value::Const { bits: value })),
        ),
        Node::Identifier { name, .. } => match scope_lookup(frames, name@) {
            None => Err((Seq::<InstrView>::empty(), CompileError::UnknownSymbol)),
            Some(ScopeType::Function { .. }) => Err(
                (Seq::<InstrView>::empty(), CompileError::VoidValue),
            ),
            Some(ScopeType::Variable { ptr: None, .. }) => Err(
                (Seq::<InstrView>::empty(), CompileError::VoidValue),
            ),
            Some(ScopeType::Variable { ptr: Some(slot), .. }) => Ok(
                (
                    seq![InstrView::Load { slot: slot as int }],
                    Some(Value::Reg { index: pos as usize }),
                ),
            ),
        },
        Node::CallExpression { callee, arguments } => {
            if !(*callee is Identifier) {
                Err((Seq::<InstrView>::empty(), CompileError::MalformedNode))
            } else {
                match scope_lookup(frames, callee->Identifier_name@) {
                    Some(ScopeType::Function { fn_index, return_kind, .. }) => {
                        match args_out(frames, pos, arguments@, 0) {
                            Err(p) => Err(p),
                            Ok((ins, vals)) => {
                                let emitted = ins.push(
                                    InstrView::Call { func: fn_index as int, args: vals },
                                );
                                if return_kind == Kind::Exact(KindName::Void) {
                                    Ok((emitted, None))
                                } else {
                                    Ok(
                                        (
                                            emitted,
                                            Some(
                                                Value::Reg {
                                                    index: (pos + ins.len()) as usize,
                                                },
                                            ),
                                        ),
                                    )
                                }
                            },
                        }
                    },
                    _ => Err((Seq::<InstrView>::empty(), CompileError::UnknownSymbol)),
                }
            }
        },
        Node::BinaryExpression { left, right, operator } => {
            match expr_out(frames, pos, *left) {
                Err(p) => Err(p),
                Ok((ins_l, None)) => Err((ins_l, CompileError::VoidValue)),
                Ok((ins_l, Some(lv))) => match expr_out(frames, pos + ins_l.len(), *right) {
                    Err((ins_r, e)) => Err((ins_l + ins_r, e)),
                    Ok((ins_r, None)) => Err((ins_l + ins_r, CompileError::VoidValue)),
                    Ok((ins_r, Some(rv))) => match bin_op_of(operator@) {
                        None => Err((ins_l + ins_r, CompileError::UnsupportedOperator)),
                        Some(op) => Ok(
                            (
                                ins_l + ins_r + seq![InstrView::Bin { op, left: lv, right: rv }],
                                Some(
                                    Value::Reg {
                                        index: (pos + ins_l.len() + ins_r.len()) as usize,
                                    },
                                ),
                            ),
                        ),
                    },
                },
            }
        },
        Node::AssignmentExpression { left, right, .. } => {
            if !(*left is Identifier) {
                Err((Seq::<InstrView>::empty(), CompileError::MalformedNode))
            } else {
                match scope_lookup(frames, left->Identifier_name@) {
                    None => Err((Seq::<InstrView>::empty(), CompileError::UnknownSymbol)),
                    Some(ScopeType::Function { .. }) => Err(
                        (Seq::<InstrView>::empty(), CompileError::VoidValue),
                    ),
                    Some(ScopeType::Variable { ptr, .. }) => match expr_out(frames, pos, *right) {
                        Err(p) => Err(p),
                        Ok((ins, None)) => Err((ins, CompileError::VoidValue)),
                        Ok((ins, Some(v))) => match ptr {
                            None => Err((ins, CompileError::VoidValue)),
                            Some(slot) => Ok(
                                (
                                    ins.push(InstrView::Store { slot: slot as int, value: v }),
                                    Some(v),
                                ),
                            ),
                        },
                    },
                }
            }
        },
        _ => Err((Seq::<InstrView>::empty(), CompileError::MalformedNode)),
    }
}

/// What lowering a call's argument list from position `j` on emits and
/// yields: the arguments' instruction runs, left to right, and their
/// values. An argument with no value (a void call) is `VoidValue`.
pub open spec fn args_out(frames: Seq<Frame>, pos: int, nodes: Seq<Node>, j: int) -> Result<
    (Seq<InstrView>, Seq<Value>),
    (Seq<InstrView>, CompileError),
>
    decreases nodes, 0int, nodes.len() - j,
{
    if j < 0 || j >= nodes.len() {
        Ok((Seq::<InstrView>::empty(), Seq::<Value>::empty()))
    } else {
        match expr_out(frames, pos, nodes[j]) {
            Err(p) => Err(p),
            Ok((ins, None)) => Err((ins, CompileError::VoidValue)),
            Ok((ins, Some(v))) => match args_out(frames, pos + ins.len(), nodes, j + 1) {
                Err((ins2, e)) => Err((ins + ins2, e)),
                Ok((ins2, vals)) => Ok((ins + ins2, seq![v] + vals)),
            },
        }
    }
}

/// The parameter kinds a declaration's argument list denotes, scanned from
/// position `j` on: each parameter must be an identifier with an exact
/// kind (else `MalformedNode`), and a `void` parameter is a configuration
/// error (`InvalidTypeAnnotation`).
pub open spec fn arg_kinds_spec(args: Seq<Node>, j: int) -> Result<Seq<KindName>, CompileError>
    decreases args.len() - j,
{
    if j < 0 || j >= args.len() {
        Ok(Seq::<KindName>::empty())
    } else {
        match args[j] {
            Node::Identifier { kind: Kind::Exact(KindName::Void), .. } => Err(
                CompileError::InvalidTypeAnnotation,
            ),
            Node::Identifier { kind: Kind::Exact(k), .. } => match arg_kinds_spec(args, j + 1) {
                Err(e) => Err(e),
                Ok(rest) => Ok(seq![k] + rest),
            },
            _ => Err(CompileError::MalformedNode),
        }
    }
}

/// The instruction prologue that binds a function's parameters, from
/// parameter `j` on: for each parameter, storage reserved at the next free
/// slot and initialized from the incoming parameter value.
pub open spec fn params_view(args: Seq<Node>, slot0: int, j: int) -> Seq<InstrView>
    decreases args.len() - j,
{
    if j < 0 || j >= args.len() {
        Seq::<InstrView>::empty()
    } else {
        seq![
            InstrView::Alloca { slot: slot0 + j, name: args[j]->Identifier_name@, arg: true },
            InstrView::Store { slot: slot0 + j, value: Value::Param { index: j as usize } },
        ] + params_view(args, slot0, j + 1)
    }
}

/// The empty chain: no statement lowered, the state unchanged.
pub proof fn lemma_stmts_lowered_refl(c0: Compiler, nodes: Seq<Node>)
    ensures
        stmts_lowered_upto(c0, nodes, 0, c0),
{
    reveal(stmts_trace_ok);
    let t = seq![c0];
    assert(stmts_trace_ok(c0, nodes, 0, c0, t));
}

/// Extending a successful statement chain by one more statement.
pub proof fn lemma_stmts_lowered_snoc(
    c0: Compiler,
    nodes: Seq<Node>,
    j: int,
    cm: Compiler,
    c1: Compiler,
)
    requires
        0 <= j < nodes.len(),
        stmts_lowered_upto(c0, nodes, j, cm),
        stmt_lowered(cm, nodes[j], c1, Ok(())),
    ensures
        stmts_lowered_upto(c0, nodes, j + 1, c1),
{
    reveal(stmts_trace_ok);
    let t = choose|t: Seq<Compiler>| #[trigger] stmts_trace_ok(c0, nodes, j, cm, t);
    let t2 = t.push(c1);
    assert forall|k: int| 0 <= k < j + 1 implies stmt_lowered(
        #[trigger] t2[k],
        nodes[k],
        t2[k + 1],
        Ok(()),
    ) by {
        if k < j {
            assert(t2[k] == t[k]);
            assert(t2[k + 1] == t[k + 1]);
            assert(stmt_lowered(t[k], nodes[k], t[k + 1], Ok(())));
        } else {
            assert(t2[k] == t[j]);
            assert(t2[k + 1] == c1);
        }
    }
    assert(stmts_trace_ok(c0, nodes, j + 1, c1, t2));
}

/// A function body's complete lowering, witnessed by two intermediate
/// states: `c_in`, the state inside the freshly pushed frame once the
/// parameter prologue stands in function `idx`'s block, and `c_out`, the
/// state after the body's statements were lowered in source order
/// (`stmts_lowered_upto`); the function then ends with its implicit return
/// terminator and the frame is released, leaving `frames1` and `m1`.
/// (Kept opaque so the surrounding quantifiers stay tractable;
/// `reveal(fn_lowering_trace)` opens it.)
#[verifier::opaque]
pub open spec fn fn_lowering_trace(
    c_in: Compiler,
    c_out: Compiler,
    depth0: int,
    idx: int,
    prologue: Seq<InstrView>,
    body: Seq<Node>,
    m1: IrModule,
    frames1: Seq<Frame>,
) -> bool {
    &&& c_in.wf()
    &&& c_in.depth() == depth0 + 1
    &&& c_in.cur() == idx
    &&& body_view(c_in.module.functions@[idx].body@) == prologue
    &&& stmts_lowered_upto(c_in, body, body.len() as int, c_out)
    &&& body_extended(c_out.module, m1, idx, seq![Instr::Ret { value: None }])
    &&& frames1 == c_out.scope.frames@.drop_last()
}

/// The kind a finished inference walk reports: the answer it stopped at,
/// or "no value" when the walk ran out of nodes without an opinion.
pub open spec fn option_kind(o: Option<Kind>) -> Kind {
    match o {
        Some(k) => k,
        None => Kind::NoValue,
    }
}

/// One step of the inference walk, on one node. `Ok(Some(k))` means the
/// walk stopped here with answer `k`; `Ok(None)` means this subtree has no
/// opinion and the walk goes on. The walk is pre-order and prunes the rest
/// of the tree once a node commits to an answer:
/// - a call whose callee resolves to a function binding yields that
///   function's declared return kind;
/// - a binary or assignment expression yields whatever a fresh walk of its
///   left operand yields (the right operand is never consulted);
/// - an identifier yields its declared kind if that is exact, and the kind
///   of the variable binding it resolves to if its own kind is still to be
///   inferred;
/// - a numeric literal yields `num`;
/// - any other node has no opinion and the walk descends into its children
///   in source order.
pub open spec fn infer_node_spec(frames: Seq<Frame>, node: Node) -> Result<
    Option<Kind>,
    CompileError,
>
    decreases node, 1int, 0int,
{
    match node {
        Node::CallExpression { callee, arguments } => {
            if !(*callee is Identifier) {
                Err(CompileError::MalformedNode)
            } else {
                let name = callee->Identifier_name;
                match scope_lookup(frames, name@) {
                    Some(ScopeType::Function { return_kind, .. }) => Ok(Some(return_kind)),
                    _ => match infer_node_spec(frames, *callee) {
                        Err(e) => Err(e),
                        Ok(Some(k)) => Ok(Some(k)),
                        Ok(None) => infer_list_spec(frames, arguments@, 0),
                    },
                }
            }
        },
        Node::BinaryExpression { left, .. } => match infer_node_spec(frames, *left) {
            Err(e) => Err(e),
            Ok(o) => Ok(Some(option_kind(o))),
        },
        Node::AssignmentExpression { left, .. } => match infer_node_spec(frames, *left) {
            Err(e) => Err(e),
            Ok(o) => Ok(Some(option_kind(o))),
        },
        Node::Identifier { name, kind } => match kind {
            Kind::Exact(_) => Ok(Some(kind)),
            Kind::Infer => match scope_lookup(frames, name@) {
                Some(ScopeType::Variable { kind: vk, .. }) => Ok(Some(vk)),
                _ => Ok(None),
            },
            Kind::NoValue => Ok(None),
        },
        Node::NumberLiteral { .. } => Ok(Some(Kind::Exact(KindName::Number))),
        Node::BooleanLiteral { .. } => Ok(None),
        Node::Program { body } => infer_list_spec(frames, body@, 0),
        Node::BlockStatement { body } => infer_list_spec(frames, body@, 0),
        Node::FunctionDeclaration { id, arguments, body, .. } => {
            match infer_node_spec(frames, *id) {
                Err(e) => Err(e),
                Ok(Some(k)) => Ok(Some(k)),
                Ok(None) => match infer_list_spec(frames, arguments@, 0) {
                    Err(e) => Err(e),
                    Ok(Some(k)) => Ok(Some(k)),
                    Ok(None) => infer_node_spec(frames, *body),
                },
            }
        },
        Node::VariableDeclaration { id, init } => match infer_node_spec(frames, *id) {
            Err(e) => Err(e),
            Ok(Some(k)) => Ok(Some(k)),
            Ok(None) => infer_node_spec(frames, *init),
        },
        Node::ReturnStatement { argument } => infer_node_spec(frames, *argument),
        Node::ExpressionStatement { expression } => infer_node_spec(frames, *expression),
        Node::IfStatement { condition, consequent, alternate } => {
            match infer_node_spec(frames, *condition) {
                Err(e) => Err(e),
                Ok(Some(k)) => Ok(Some(k)),
                Ok(None) => match infer_node_spec(frames, *consequent) {
                    Err(e) => Err(e),
                    Ok(Some(k)) => Ok(Some(k)),
                    Ok(None) => match alternate {
                        Some(alt) => infer_node_spec(frames, *alt),
                        None => Ok(None),
                    },
                },
            }
        },
        Node::LoopStatement { condition, body } => match infer_node_spec(frames, *condition) {
            Err(e) => Err(e),
            Ok(Some(k)) => Ok(Some(k)),
            Ok(None) => infer_node_spec(frames, *body),
        },
        Node::BreakStatement { label } => match label {
            Some(l) => infer_node_spec(frames, *l),
            None => Ok(None),
        },
        Node::ContinueStatement { label } => match label {
            Some(l) => infer_node_spec(frames, *l),
            None => Ok(None),
        },
    }
}

/// The inference walk over a run of sibling nodes, from position `j` on:
/// the first subtree with an opinion (or the first malformed one) decides.
pub open spec fn infer_list_spec(frames: Seq<Frame>, nodes: Seq<Node>, j: int) -> Result<
    Option<Kind>,
    CompileError,
>
    decreases nodes, 0int, nodes.len() - j,
{
    if j < 0 || j >= nodes.len() {
        Ok(None)
    } else {
        match infer_node_spec(frames, nodes[j]) {
            Err(e) => Err(e),
            Ok(Some(k)) => Ok(Some(k)),
            Ok(None) => infer_list_spec(frames, nodes, j + 1),
        }
    }
}

/// What `Compiler::infer_expression_kind` reports for an expression under a
/// given scope stack.
pub open spec fn infer_kind_spec(frames: Seq<Frame>, node: Node) -> Result<Kind, CompileError> {
    match infer_node_spec(frames, node) {
        Err(e) => Err(e),
        Ok(o) => Ok(option_kind(o)),
    }
}

/// Type inference is deterministic and pure: it is a function of the scope
/// stack and the expression alone, so two walks of the same expression
/// under the same stack report the same kind — and, being a reading walk,
/// neither changes any state an inference could observe.
pub proof fn lemma_infer_deterministic(
    frames: Seq<Frame>,
    expr: Node,
    r1: Result<Kind, CompileError>,
    r2: Result<Kind, CompileError>,
)
    requires
        r1 == infer_kind_spec(frames, expr),
        r2 == infer_kind_spec(frames, expr),
    ensures
        r1 == r2,
{
}

/// Every argument a valid kind scan passes is an identifier with an exact,
/// non-void kind.
pub proof fn lemma_arg_kinds_identifier(args: Seq<Node>, j: int, i: int)
    requires
        0 <= j <= i < args.len(),
        arg_kinds_spec(args, j) is Ok,
    ensures
        args[i] is Identifier,
        args[i]->Identifier_kind is Exact,
        args[i]->Identifier_kind != Kind::Exact(KindName::Void),
    decreases i - j,
{
    if j < i {
        lemma_arg_kinds_identifier(args, j + 1, i);
    }
}

/// One step of the parameter prologue: the first `2 * (i + 1)` prologue
/// instructions are the first `2 * i` plus parameter `i`'s pair.
pub proof fn lemma_params_view_unfold(args: Seq<Node>, slot0: int, i: int)
    requires
        0 <= i < args.len(),
    ensures
        params_view(args, slot0, 0).take(2 * (i + 1) as int) == params_view(args, slot0, 0).take(
            2 * i as int,
        ) + seq![
            InstrView::Alloca { slot: slot0 + i, name: args[i]->Identifier_name@, arg: true },
            InstrView::Store { slot: slot0 + i, value: Value::Param { index: i as usize } },
        ],
    decreases i,
{
    lemma_params_view_len_index(args, slot0, 0);
    assert(params_view(args, slot0, 0).take(2 * (i + 1) as int) =~= params_view(args, slot0, 0).take(
        2 * i as int,
    ) + seq![
        InstrView::Alloca { slot: slot0 + i, name: args[i]->Identifier_name@, arg: true },
        InstrView::Store { slot: slot0 + i, value: Value::Param { index: i as usize } },
    ]);
}

/// The parameter prologue from `j` on has two instructions per parameter:
/// parameter `k`'s storage reservation and its initializing store.
pub proof fn lemma_params_view_len_index(args: Seq<Node>, slot0: int, j: int)
    requires
        0 <= j <= args.len(),
    ensures
        params_view(args, slot0, j).len() == 2 * (args.len() - j),
        forall|k: int|
            j <= k < args.len() ==> params_view(args, slot0, j)[2 * (k - j)] == (InstrView::Alloca {
                slot: slot0 + k,
                name: args[k]->Identifier_name@,
                arg: true,
            }) && params_view(args, slot0, j)[2 * (k - j) + 1] == (InstrView::Store {
                slot: slot0 + k,
                value: Value::Param { index: k as usize },
            }),
    decreases args.len() - j,
{
    if j < args.len() {
        lemma_params_view_len_index(args, slot0, j + 1);
        assert forall|k: int|
            j <= k < args.len() implies params_view(args, slot0, j)[2 * (k - j)] == (
        InstrView::Alloca {
            slot: slot0 + k,
            name: args[k]->Identifier_name@,
            arg: true,
        }) && params_view(args, slot0, j)[2 * (k - j) + 1] == (InstrView::Store {
            slot: slot0 + k,
            value: Value::Param { index: k as usize },
        }) by {
            if k > j {
                assert(params_view(args, slot0, j)[2 * (k - j)] == params_view(args, slot0, j + 1)[2
                    * (k - j - 1)]);
                assert(params_view(args, slot0, j)[2 * (k - j) + 1] == params_view(
                    args,
                    slot0,
                    j + 1,
                )[2 * (k - j - 1) + 1]);
            }
        }
    }
}

/// The whole compilation state: the module being emitted and the stack of
/// lexical frames. Instructions are appended to the entry block of the
/// function the innermost frame is bound to.
pub struct Compiler {
    pub module: IrModule,
    pub scope: BlockScope,
}

/// One statement's lowering, as a relation between the compiler state
/// before (`c0`) and after (`c1`) and the result `r`: the bookkeeping that
/// always holds (well-formedness, stack depth, emission cursor, the outer
/// frames), and, per statement form, exactly what is emitted, declared and
/// reported — including what a failed lowering leaves behind. This is the
/// per-statement semantics that `stmts_lowered_upto` folds over a block.
pub open spec fn stmt_lowered(
    c0: Compiler,
    node: Node,
    c1: Compiler,
    r: Result<(), CompileError>,
) -> bool {
    &&& c1.wf()
    &&& c1.depth() == c0.depth()
    &&& c1.cur() == c0.cur()
    &&& c1.scope.frames@.drop_last() == c0.scope.frames@.drop_last()
    &&& module_extends(c0.module, c1.module)
    &&& (!(node is FunctionDeclaration) && !(node is VariableDeclaration) && !(node
                is BlockStatement) && !(node is ReturnStatement) && !(node
                is ExpressionStatement) ==> r == Ok::<(), CompileError>(()) && c1
                == c0)
    &&& (node matches Node::VariableDeclaration { id, .. } ==> ({
                &&& !(*id is Identifier) ==> r == Err::<(), CompileError>(
                    CompileError::MalformedNode,
                ) && c1 == c0
                &&& *id matches Node::Identifier { name, .. } ==> ({
                    &&& r is Ok ==> frame_contains(c1.scope.frames@.last(), name@)
                        && !frame_contains(c0.scope.frames@.last(), name@)
                    &&& frame_contains(c0.scope.frames@.last(), name@) ==> r is Err
                })
                &&& *id matches Node::Identifier { name, kind } ==> (kind matches Kind::Exact(kn)
                    ==> (r is Ok && !(kn is Void) ==> scope_declared(
                    c0.scope.frames@,
                    c1.scope.frames@,
                    name@,
                    ScopeType::Variable {
                        kind,
                        ptr: Some(c0.module.slots@.len() as usize),
                    },
                )))
            }))
    &&& (node matches Node::FunctionDeclaration { id, .. } ==> ({
                &&& !(*id is Identifier) ==> r == Err::<(), CompileError>(
                    CompileError::MalformedNode,
                ) && c1 == c0
                &&& *id matches Node::Identifier { name, .. } ==> (r is Ok ==> frame_contains(
                    c1.scope.frames@.last(),
                    name@,
                ) && c1.module.functions@.len() > c0.module.functions@.len())
            }))
    &&& (node matches Node::FunctionDeclaration { id, body, .. } ==> (*id is Identifier && !(
            *body is BlockStatement) ==> r == Err::<(), CompileError>(CompileError::MalformedNode)
                && c1 == c0))
    &&& (node matches Node::FunctionDeclaration { id, arguments, body, return_kind } ==> (*id
                is Identifier && *body is BlockStatement ==> ({
                &&& !(return_kind is Exact) ==> r == Err::<(), CompileError>(
                    CompileError::MalformedNode,
                ) && c1 == c0
                &&& return_kind is Exact ==> (arg_kinds_spec(arguments@, 0) matches Err(e) ==> r
                    == Err::<(), CompileError>(e) && c1 == c0)
            })))
    &&& (node matches Node::VariableDeclaration { id, init } ==> (*id matches Node::Identifier {
                name,
                kind,
            } ==> ({
                let frames0 = c0.scope.frames@;
                let body0 = c0.module.functions@[c0.cur()].body@;
                let body1 = c1.module.functions@[c0.cur()].body@;
                let k_res = if kind is Exact {
                    Ok::<Kind, CompileError>(kind)
                } else {
                    infer_kind_spec(frames0, *init)
                };
                match k_res {
                    Err(e) => r == Err::<(), CompileError>(e) && c1 == c0,
                    Ok(k) => match expr_out(frames0, body0.len() as int, *init) {
                        Err(p) => r == Err::<(), CompileError>(p.1) && body_view(body1)
                            == body_view(body0) + p.0 && c1.scope == c0.scope,
                        Ok(p) => {
                            if p.1 is None {
                                r == Err::<(), CompileError>(CompileError::VoidValue) && body_view(
                                    body1,
                                ) == body_view(body0) + p.0 && c1.scope == c0.scope
                            } else if frame_contains(frames0.last(), name@) {
                                r == Err::<(), CompileError>(CompileError::DuplicateSymbol)
                                    && body_view(body1) == body_view(body0) + p.0 && c1.scope == c0.scope && c1.module.slots@ == c0.module.slots@
                            } else if !(k is Exact) {
                                r == Err::<(), CompileError>(CompileError::InvalidTypeAnnotation)
                                    && body_view(body1) == body_view(body0) + p.0 && c1.scope == c0.scope
                            } else if k == Kind::Exact(KindName::Void) {
                                r == Ok::<(), CompileError>(()) && body_view(body1) == body_view(
                                    body0,
                                ) + p.0 && scope_declared(
                                    frames0,
                                    c1.scope.frames@,
                                    name@,
                                    ScopeType::Variable { kind: k, ptr: None },
                                )
                            } else {
                                let slot = c0.module.slots@.len() as usize;
                                r == Ok::<(), CompileError>(()) && body_view(body1) == body_view(
                                    body0,
                                ) + p.0 + seq![
                                    InstrView::Alloca { slot: slot as int, name: name@, arg: false },
                                    InstrView::Store { slot: slot as int, value: p.1->0 },
                                ] && scope_declared(
                                    frames0,
                                    c1.scope.frames@,
                                    name@,
                                    ScopeType::Variable { kind: k, ptr: Some(slot) },
                                ) && c1.module.slots@ == c0.module.slots@.push(
                                    k->0,
                                )
                            }
                        },
                    },
                }
            })))
    &&& (node matches Node::BlockStatement { .. } ==> (r is Ok ==> ({
                let idx = c0.module.functions@.len() as int;
                &&& c1.scope.frames@ == c0.scope.frames@
                &&& c1.module.functions@.len() > idx
                &&& c1.module.functions@[idx].name@ == "anonymous"@
                &&& c1.module.functions@[idx].param_kinds@.len() == 0
                &&& c1.module.functions@[idx].return_kind == KindName::Void
                &&& c1.module.functions@[idx].body@.last() == (Instr::Ret { value: None })
            })))
    &&& (node matches Node::ExpressionStatement { expression } ==> ({
                let body0 = c0.module.functions@[c0.cur()].body@;
                let body1 = c1.module.functions@[c0.cur()].body@;
                &&& c1.scope == c0.scope
                &&& match expr_out(c0.scope.frames@, body0.len() as int, *expression) {
                    Err(p) => r == Err::<(), CompileError>(p.1) && body_view(body1) == body_view(
                        body0,
                    ) + p.0,
                    Ok(p) => r == Ok::<(), CompileError>(()) && body_view(body1) == body_view(
                        body0,
                    ) + p.0,
                }
            }))
    &&& (node matches Node::ReturnStatement { argument } ==> ({
                let body0 = c0.module.functions@[c0.cur()].body@;
                let body1 = c1.module.functions@[c0.cur()].body@;
                let rk = c0.module.functions@[c0.cur()].return_kind;
                &&& c1.scope == c0.scope
                &&& match expr_out(c0.scope.frames@, body0.len() as int, *argument) {
                    Err(p) => r == Err::<(), CompileError>(p.1) && body_view(body1) == body_view(
                        body0,
                    ) + p.0,
                    Ok(p) => {
                        if rk is Void {
                            r == Ok::<(), CompileError>(()) && body_view(body1) == body_view(body0)
                                + p.0 + seq![InstrView::Ret { value: None }] && c1.scope
                                == c0.scope
                        } else {
                            match p.1 {
                                None => r == Err::<(), CompileError>(CompileError::VoidValue)
                                    && body_view(body1) == body_view(body0) + p.0,
                                Some(v) => r == Ok::<(), CompileError>(()) && body_view(body1)
                                    == body_view(body0) + p.0 + seq![
                                    InstrView::Ret { value: Some(v) },
                                ] && c1.scope == c0.scope,
                            }
                        }
                    },
                }
            }))
}

/// A chain of compiler states that lowers the first `j` statements of a
/// block in source order, each step a successful `stmt_lowered`.
#[verifier::opaque]
pub open spec fn stmts_trace_ok(
    c0: Compiler,
    nodes: Seq<Node>,
    j: int,
    c1: Compiler,
    trace: Seq<Compiler>,
) -> bool {
    &&& 0 <= j <= nodes.len()
    &&& trace.len() == j + 1
    &&& trace[0] == c0
    &&& trace[j] == c1
    &&& forall|k: int|
        0 <= k < j ==> stmt_lowered(#[trigger] trace[k], nodes[k], trace[k + 1], Ok(()))
}

/// A run of statements lowered in source order, all successfully: some
/// chain of intermediate states leads from `c0` through each of the first
/// `j` statements' `stmt_lowered` step to `c1`.
pub open spec fn stmts_lowered_upto(c0: Compiler, nodes: Seq<Node>, j: int, c1: Compiler) -> bool {
    exists|trace: Seq<Compiler>| #[trigger] stmts_trace_ok(c0, nodes, j, c1, trace)
}

impl Compiler {
    /// Every frame on the stack is bound to a function that exists in the
    /// module.
    pub open spec fn wf(self) -> bool {
        forall|i: int|
            0 <= i < self.scope.frames@.len() ==> (#[trigger] self.scope.frames@[i]).basic_block
                < self.module.functions@.len()
    }

    /// The number of frames on the scope stack.
    pub open spec fn depth(self) -> int {
        self.scope.frames@.len() as int
    }

    /// The function instructions are currently emitted into.
    pub open spec fn cur(self) -> int {
        self.scope.frames@.last().basic_block as int
    }

    /// A compiler with an empty module and no open scope.
    pub fn new() -> (r: Compiler)
        ensures
            r.wf(),
            r.depth() == 0,
            r.module.functions@.len() == 0,
            r.module.slots@.len() == 0,
    {
        Compiler { module: IrModule::new(), scope: BlockScope::new() }
    }

    /// Appends one instruction to the end of the current emission block and
    /// yields its index (its register, for value-producing instructions).
    fn emit(&mut self, instr: Instr) -> (r: usize)
        requires
            old(self).wf(),
            old(self).depth() > 0,
        ensures
            final(self).wf(),
            final(self).scope == old(self).scope,
            body_extended(old(self).module, final(self).module, old(self).cur(), seq![instr]),
            r == old(self).module.functions@[old(self).cur()].body@.len(),
    {
        let cb = self.scope.current_block();
        let r = self.module.functions[cb].body.len();
        self.module.functions[cb].body.push(instr);
        proof {
            assert(final(self).module.functions@[cb as int].body@ =~= old(self).module.functions@[cb as int].body@ + seq![instr]);
        }
        r
    }

    /// Reserves a fresh storage slot of the given type in the module arena.
    fn alloc_slot(&mut self, kind: KindName) -> (r: usize)
        ensures
            final(self).scope == old(self).scope,
            final(self).module.functions@ == old(self).module.functions@,
            final(self).module.slots@ == old(self).module.slots@.push(kind),
            r == old(self).module.slots@.len(),
    {
        let r = self.module.slots.len();
        self.module.slots.push(kind);
        r
    }

    /// Enters a new lexical frame bound to `basic_block` and repositions
    /// emission to the end of that block.
    fn push_block_scope(&mut self, basic_block: usize)
        requires
            old(self).wf(),
            basic_block < old(self).module.functions@.len(),
        ensures
            final(self).wf(),
            final(self).module == old(self).module,
            final(self).depth() == old(self).depth() + 1,
            final(self).scope.frames@.drop_last() == old(self).scope.frames@,
            final(self).scope.frames@.last().entries@.len() == 0,
            final(self).cur() == basic_block,
    {
        self.scope.push(basic_block);
        proof {
            let s0 = old(self).scope.frames@;
            let s1 = self.scope.frames@;
            assert forall|i: int|
                0 <= i < s1.len() implies (#[trigger] s1[i]).basic_block
                < self.module.functions@.len() by {
                if i < s1.len() - 1 {
                    assert(s1.drop_last()[i] == s1[i]);
                    assert(s1[i] == s0[i]);
                }
            }
        }
    }

    /// Leaves the current frame; emission falls back to the end of the
    /// parent frame's block, if one exists.
    fn pop_block_scope(&mut self)
        requires
            old(self).wf(),
            old(self).depth() > 0,
        ensures
            final(self).wf(),
            final(self).module == old(self).module,
            final(self).scope.frames@ == old(self).scope.frames@.drop_last(),
    {
        self.scope.pop();
    }

    /// One node of the inference walk; see `infer_node_spec`.
    fn infer_node(&self, node: &Node) -> (r: Result<Option<Kind>, CompileError>)
        ensures
            r == infer_node_spec(self.scope.frames@, *node),
        decreases *node, 1int,
    {
        match node {
            Node::CallExpression { callee, arguments } => {
                match &**callee {
                    Node::Identifier { name, .. } => {
                        let as_fn: Option<Kind> = match self.scope.search_by_name(name.as_str()) {
                            Some(ScopeType::Function { return_kind, .. }) => Some(*return_kind),
                            _ => None,
                        };
                        match as_fn {
                            Some(rk) => Ok(Some(rk)),
                            None => match self.infer_node(&**callee) {
                                Err(e) => Err(e),
                                Ok(Some(k)) => Ok(Some(k)),
                                Ok(None) => self.infer_list(arguments),
                            },
                        }
                    },
                    _ => Err(CompileError::MalformedNode),
                }
            },
            Node::BinaryExpression { left, .. } => match self.infer_node(&**left) {
                Err(e) => Err(e),
                Ok(o) => match o {
                    Some(k) => Ok(Some(k)),
                    None => Ok(Some(Kind::NoValue)),
                },
            },
            Node::AssignmentExpression { left, .. } => match self.infer_node(&**left) {
                Err(e) => Err(e),
                Ok(o) => match o {
                    Some(k) => Ok(Some(k)),
                    None => Ok(Some(Kind::NoValue)),
                },
            },
            Node::Identifier { name, kind } => match kind {
                Kind::Exact(_) => Ok(Some(*kind)),
                Kind::Infer => match self.scope.search_by_name(name.as_str()) {
                    Some(ScopeType::Variable { kind: vk, .. }) => Ok(Some(*vk)),
                    _ => Ok(None),
                },
                Kind::NoValue => Ok(None),
            },
            Node::NumberLiteral { .. } => Ok(Some(Kind::Exact(KindName::Number))),
            Node::BooleanLiteral { .. } => Ok(None),
            Node::Program { body } => self.infer_list(body),
            Node::BlockStatement { body } => self.infer_list(body),
            Node::FunctionDeclaration { id, arguments, body, .. } => {
                match self.infer_node(&**id) {
                    Err(e) => Err(e),
                    Ok(Some(k)) => Ok(Some(k)),
                    Ok(None) => match self.infer_list(arguments) {
                        Err(e) => Err(e),
                        Ok(Some(k)) => Ok(Some(k)),
                        Ok(None) => self.infer_node(&**body),
                    },
                }
            },
            Node::VariableDeclaration { id, init } => match self.infer_node(&**id) {
                Err(e) => Err(e),
                Ok(Some(k)) => Ok(Some(k)),
                Ok(None) => self.infer_node(&**init),
            },
            Node::ReturnStatement { argument } => self.infer_node(&**argument),
            Node::ExpressionStatement { expression } => self.infer_node(&**expression),
            Node::IfStatement { condition, consequent, alternate } => {
                match self.infer_node(&**condition) {
                    Err(e) => Err(e),
                    Ok(Some(k)) => Ok(Some(k)),
                    Ok(None) => match self.infer_node(&**consequent) {
                        Err(e) => Err(e),
                        Ok(Some(k)) => Ok(Some(k)),
                        Ok(None) => match alternate {
                            Some(alt) => self.infer_node(&**alt),
                            None => Ok(None),
                        },
                    },
                }
            },
            Node::LoopStatement { condition, body } => match self.infer_node(&**condition) {
                Err(e) => Err(e),
                Ok(Some(k)) => Ok(Some(k)),
                Ok(None) => self.infer_node(&**body),
            },
            Node::BreakStatement { label } => match label {
                Some(l) => self.infer_node(&**l),
                None => Ok(None),
            },
            Node::ContinueStatement { label } => match label {
                Some(l) => self.infer_node(&**l),
                None => Ok(None),
            },
        }
    }

    /// The inference walk over a run of sibling nodes, in source order.
    fn infer_list(&self, nodes: &Vec<Node>) -> (r: Result<Option<Kind>, CompileError>)
        ensures
            r == infer_list_spec(self.scope.frames@, nodes@, 0),
        decreases nodes@, 0int,
    {
        let mut j: usize = 0;
        while j < nodes.len()
            invariant
                0 <= j <= nodes@.len(),
                infer_list_spec(self.scope.frames@, nodes@, 0) == infer_list_spec(
                    self.scope.frames@,
                    nodes@,
                    j as int,
                ),
            decreases nodes@.len() - j,
        {
            match self.infer_node(&nodes[j]) {
                Err(e) => {
                    return Err(e);
                },
                Ok(Some(k)) => {
                    return Ok(Some(k));
                },
                Ok(None) => {
                    j = j + 1;
                },
            }
        }
        Ok(None)
    }

    /// Resolves the kind of an expression whose declared type is not
    /// already exact, by a read-only pre-order walk of the expression that
    /// consults the scope manager; it creates no bindings and emits
    /// nothing, so it may be called speculatively any number of times.
    pub fn infer_expression_kind(&self, expr: &Node) -> (r: Result<Kind, CompileError>)
        ensures
            r == infer_kind_spec(self.scope.frames@, *expr),
    {
        match self.infer_node(expr) {
            Err(e) => Err(e),
            Ok(Some(k)) => Ok(k),
            Ok(None) => Ok(Kind::NoValue),
        }
    }

    /// Declares a variable in the current frame. A value-carrying kind
    /// (`num`, `bool`) gets a fresh storage slot, an `Alloca`, and — when an
    /// initial value is supplied — a `Store`; `void` gets no storage. Fails
    /// with `DuplicateSymbol` when the current frame already binds the name,
    /// and with `InvalidTypeAnnotation` when the kind never got resolved to
    /// a concrete type.
    fn put_variable(&mut self, name: &str, kind: Kind, value: Option<Value>, is_arg: bool) -> (r:
        Result<(), CompileError>)
        requires
            old(self).wf(),
            old(self).depth() > 0,
        ensures
            final(self).wf(),
            final(self).depth() == old(self).depth(),
            module_extends(old(self).module, final(self).module),
            final(self).module.functions@.len() == old(self).module.functions@.len(),
            frame_contains(old(self).scope.frames@.last(), name@) ==> r == Err::<
                (),
                CompileError,
            >(CompileError::DuplicateSymbol) && *final(self) == *old(self),
            !frame_contains(old(self).scope.frames@.last(), name@) && !(kind is Exact) ==> r
                == Err::<(), CompileError>(CompileError::InvalidTypeAnnotation) && *final(self)
                == *old(self),
            !frame_contains(old(self).scope.frames@.last(), name@) ==> (kind matches Kind::Exact(
                kn,
            ) ==> r == Ok::<(), CompileError>(()) && {
                if kn is Void {
                    &&& final(self).module == old(self).module
                    &&& scope_declared(
                        old(self).scope.frames@,
                        final(self).scope.frames@,
                        name@,
                        ScopeType::Variable { kind, ptr: None },
                    )
                } else {
                    let slot = old(self).module.slots@.len() as usize;
                    let body0 = old(self).module.functions@[old(self).cur()].body@;
                    let body1 = final(self).module.functions@[old(self).cur()].body@;
                    &&& scope_declared(
                        old(self).scope.frames@,
                        final(self).scope.frames@,
                        name@,
                        ScopeType::Variable { kind, ptr: Some(slot) },
                    )
                    &&& final(self).module.slots@ == old(self).module.slots@.push(kn)
                    &&& final(self).module.functions@.len() == old(self).module.functions@.len()
                    &&& fn_header_eq(
                        old(self).module.functions@[old(self).cur()],
                        final(self).module.functions@[old(self).cur()],
                    )
                    &&& forall|i: int|
                        0 <= i < old(self).module.functions@.len() && i != old(self).cur() ==> (
                        #[trigger] final(self).module.functions@[i])
                            == old(self).module.functions@[i]
                    &&& body1.len() == body0.len() + (if value is Some {
                        2int
                    } else {
                        1int
                    })
                    &&& body1.take(body0.len() as int) == body0
                    &&& body1[body0.len() as int] matches Instr::Alloca {
                        slot: s2,
                        name: n2,
                        arg: a2,
                    } && s2 == slot && n2@ == name@ && a2 == is_arg
                    &&& value matches Some(v) ==> body1.last() == (Instr::Store { slot, value: v })
                }
            }),
    {
        let top = self.scope.depth() - 1;
        // Duplicate check against the current frame only: shadowing an outer
        // name is allowed by construction.
        let dup = {
            let fr = &self.scope.frames[top];
            fr.has(name)
        };
        if dup {
            return Err(CompileError::DuplicateSymbol);
        }
        let kn = match kind.read_kind_name() {
            Some(kn) => kn,
            None => {
                return Err(CompileError::InvalidTypeAnnotation);
            },
        };
        let ptr: Option<usize> = match kn {
            KindName::Void => None,
            _ => {
                let slot = self.alloc_slot(kn);
                self.emit(Instr::Alloca { slot, name: String::from_str(name), arg: is_arg });
                if let Some(v) = value {
                    self.emit(Instr::Store { slot, value: v });
                }
                Some(slot)
            },
        };
        let r = self.scope.put_variable(name, ScopeType::Variable { kind, ptr });
        proof {
            assert(r == Ok::<(), CompileError>(()));
            let s0 = old(self).scope.frames@;
            let s1 = self.scope.frames@;
            assert forall|i: int|
                0 <= i < s1.len() implies (#[trigger] s1[i]).basic_block
                < self.module.functions@.len() by {
                if i < s1.len() - 1 {
                    assert(s1.drop_last()[i] == s1[i]);
                    assert(s0.drop_last()[i] == s0[i]);
                    assert(s1[i] == s0[i]);
                } else {
                    assert(s1.last().basic_block == s0.last().basic_block);
                }
                assert(s0[i].basic_block < old(self).module.functions@.len());
            }
        }
        Ok(())
    }

    /// Binds a function's name, IR handle and signature in the current
    /// frame. Fails with `DuplicateSymbol` when the current frame already
    /// binds the name.
    fn put_function(
        &mut self,
        name: &str,
        fn_index: usize,
        arg_kind_names: Vec<KindName>,
        return_kind: Kind,
    ) -> (r: Result<(), CompileError>)
        requires
            old(self).wf(),
            old(self).depth() > 0,
        ensures
            final(self).wf(),
            final(self).depth() == old(self).depth(),
            final(self).module == old(self).module,
            frame_contains(old(self).scope.frames@.last(), name@) ==> r == Err::<
                (),
                CompileError,
            >(CompileError::DuplicateSymbol) && *final(self) == *old(self),
            !frame_contains(old(self).scope.frames@.last(), name@) ==> r == Ok::<
                (),
                CompileError,
            >(()) && scope_declared(
                old(self).scope.frames@,
                final(self).scope.frames@,
                name@,
                ScopeType::Function { fn_index, return_kind, arg_kind_names: arg_kind_names },
            ),
    {
        let r = self.scope.put_variable(
            name,
            ScopeType::Function { fn_index, return_kind, arg_kind_names },
        );
        proof {
            let s0 = old(self).scope.frames@;
            let s1 = self.scope.frames@;
            assert forall|i: int|
                0 <= i < s1.len() implies (#[trigger] s1[i]).basic_block
                < self.module.functions@.len() by {
                if i < s1.len() - 1 {
                    assert(s1.drop_last()[i] == s1[i]);
                    assert(s0.drop_last()[i] == s0[i]);
                    assert(s1[i] == s0[i]);
                } else if s1.len() == s0.len() && s1.last().basic_block == s0.last().basic_block {
                }
                assert(s0[i].basic_block < old(self).module.functions@.len());
            }
        }
        r
    }

    /// Lowers a call's argument expressions, left to right, to values:
    /// exactly the instructions and values `args_out` gives on success, and
    /// on failure exactly its error and exactly the instructions it says
    /// the attempt left behind. An argument that yields no value (a void
    /// call) fails with `VoidValue`.
    fn compile_arguments(&mut self, nodes: &Vec<Node>) -> (r: Result<Vec<Value>, CompileError>)
        requires
            old(self).wf(),
            old(self).depth() > 0,
        ensures
            final(self).wf(),
            final(self).scope == old(self).scope,
            module_extended_at(old(self).module, final(self).module, old(self).cur()),
            ({
                let body0 = old(self).module.functions@[old(self).cur()].body@;
                let body1 = final(self).module.functions@[old(self).cur()].body@;
                match args_out(old(self).scope.frames@, body0.len() as int, nodes@, 0) {
                    Ok(p) => r matches Ok(vs) && vs@ == p.1 && body_view(body1) == body_view(body0)
                        + p.0,
                    Err(p) => r == Err::<Vec<Value>, CompileError>(p.1) && body_view(body1)
                        == body_view(body0) + p.0,
                }
            }),
        decreases nodes@, 0int,
    {
        let ghost frames = old(self).scope.frames@;
        let ghost cb = old(self).cur();
        let ghost body0 = old(self).module.functions@[cb].body@;
        proof {
            lemma_extended_at_refl(old(self).module, cb);
            assert(body_view(body0).take(body0.len() as int) =~= body_view(body0));
            match args_out(frames, body0.len() as int, nodes@, 0) {
                Ok(p2) => {
                    assert(body_view(body0).skip(body0.len() as int) + p2.0 =~= p2.0);
                    assert(Seq::<Value>::empty() + p2.1 =~= p2.1);
                },
                Err(p2) => {
                    assert(body_view(body0).skip(body0.len() as int) + p2.0 =~= p2.0);
                },
            }
        }
        let mut args: Vec<Value> = Vec::new();
        let mut i: usize = 0;
        while i < nodes.len()
            invariant
                self.wf(),
                self.depth() > 0,
                self.scope == old(self).scope,
                module_extended_at(old(self).module, self.module, cb),
                cb == old(self).cur(),
                frames == old(self).scope.frames@,
                body0 == old(self).module.functions@[cb].body@,
                0 <= i <= nodes@.len(),
                args@.len() == i,
                ({
                    let bodyc = self.module.functions@[cb].body@;
                    &&& body_view(bodyc).take(body0.len() as int) == body_view(body0)
                    &&& match args_out(frames, bodyc.len() as int, nodes@, i as int) {
                        Ok(p2) => args_out(frames, body0.len() as int, nodes@, 0) == Ok::<
                            (Seq<InstrView>, Seq<Value>),
                            (Seq<InstrView>, CompileError),
                        >(
                            (
                                body_view(bodyc).skip(body0.len() as int) + p2.0,
                                args@ + p2.1,
                            ),
                        ),
                        Err(p2) => args_out(frames, body0.len() as int, nodes@, 0) == Err::<
                            (Seq<InstrView>, Seq<Value>),
                            (Seq<InstrView>, CompileError),
                        >((body_view(bodyc).skip(body0.len() as int) + p2.0, p2.1)),
                    }
                }),
            decreases nodes@.len() - i,
        {
            let ghost m_before = self.module;
            let ghost bodyc = self.module.functions@[cb].body@;
            let step = self.compile_expression(&nodes[i]);
            proof {
                lemma_extended_at_trans(old(self).module, m_before, self.module, cb);
                let bodyn = self.module.functions@[cb].body@;
                assert(body_view(bodyn).take(body0.len() as int) =~= body_view(body0));
                assert(body_view(bodyn) =~= body_view(bodyn).take(body0.len() as int) + body_view(
                    bodyn,
                ).skip(body0.len() as int));
                match expr_out(frames, bodyc.len() as int, nodes@[i as int]) {
                    Ok(pe) => {
                        assert(body_view(bodyn).skip(body0.len() as int) =~= body_view(bodyc).skip(
                            body0.len() as int,
                        ) + pe.0);
                        assert(body_view(bodyn).len() == bodyn.len());
                        assert(body_view(bodyc).len() == bodyc.len());
                        assert(bodyn.len() == bodyc.len() + pe.0.len());
                        if pe.1 is Some {
                            match args_out(frames, bodyn.len() as int, nodes@, i + 1) {
                                Ok(p3) => {
                                    assert(args_out(frames, bodyc.len() as int, nodes@, i as int)
                                        == Ok::<
                                        (Seq<InstrView>, Seq<Value>),
                                        (Seq<InstrView>, CompileError),
                                    >((pe.0 + p3.0, seq![pe.1->0] + p3.1)));
                                    assert(body_view(bodyc).skip(body0.len() as int) + (pe.0 + p3.0)
                                        =~= body_view(bodyn).skip(body0.len() as int) + p3.0);
                                    assert(args@ + (seq![pe.1->0] + p3.1) =~= args@.push(pe.1->0)
                                        + p3.1);
                                },
                                Err(p3) => {
                                    assert(args_out(frames, bodyc.len() as int, nodes@, i as int)
                                        == Err::<
                                        (Seq<InstrView>, Seq<Value>),
                                        (Seq<InstrView>, CompileError),
                                    >((pe.0 + p3.0, p3.1)));
                                    assert(body_view(bodyc).skip(body0.len() as int) + (pe.0 + p3.0)
                                        =~= body_view(bodyn).skip(body0.len() as int) + p3.0);
                                },
                            }
                        } else {
                            assert(args_out(frames, bodyc.len() as int, nodes@, i as int) == Err::<
                                (Seq<InstrView>, Seq<Value>),
                                (Seq<InstrView>, CompileError),
                            >((pe.0, CompileError::VoidValue)));
                        }
                    },
                    Err(pe) => {
                        assert(body_view(bodyn).skip(body0.len() as int) =~= body_view(bodyc).skip(
                            body0.len() as int,
                        ) + pe.0);
                        assert(args_out(frames, bodyc.len() as int, nodes@, i as int) == Err::<
                            (Seq<InstrView>, Seq<Value>),
                            (Seq<InstrView>, CompileError),
                        >(pe));
                    },
                }
            }
            match step {
                Err(e) => {
                    return Err(e);
                },
                Ok(None) => {
                    return Err(CompileError::VoidValue);
                },
                Ok(Some(v)) => {
                    args.push(v);
                },
            }
            i = i + 1;
        }
        proof {
            let bodyc = self.module.functions@[cb].body@;
            assert(args_out(frames, bodyc.len() as int, nodes@, i as int) == Ok::<
                (Seq<InstrView>, Seq<Value>),
                (Seq<InstrView>, CompileError),
            >((Seq::<InstrView>::empty(), Seq::<Value>::empty())));
            assert(body_view(bodyc).skip(body0.len() as int) + Seq::<InstrView>::empty()
                =~= body_view(bodyc).skip(body0.len() as int));
            assert(args@ + Seq::<Value>::empty() =~= args@);
            assert(body_view(bodyc) =~= body_view(bodyc).take(body0.len() as int) + body_view(
                bodyc,
            ).skip(body0.len() as int));
        }
        Ok(args)
    }

    /// Lowers one expression to a value, emitting the instructions that
    /// compute it into the current block: exactly the run and value that
    /// `expr_out` gives on success, and exactly its error otherwise.
    /// `Ok(None)` is the result of a call to a void function: such a call
    /// yields no usable value, and a position that needs one fails with
    /// `VoidValue`. The scope stack is left exactly as it was; only the
    /// current function's body grows.
    #[verifier::rlimit(80)]
    fn compile_expression(&mut self, node: &Node) -> (r: Result<Option<Value>, CompileError>)
        requires
            old(self).wf(),
            old(self).depth() > 0,
        ensures
            final(self).wf(),
            final(self).scope == old(self).scope,
            module_extended_at(old(self).module, final(self).module, old(self).cur()),
            ({
                let body0 = old(self).module.functions@[old(self).cur()].body@;
                let body1 = final(self).module.functions@[old(self).cur()].body@;
                match expr_out(old(self).scope.frames@, body0.len() as int, *node) {
                    Ok(p) => r == Ok::<Option<Value>, CompileError>(p.1) && body_view(body1)
                        == body_view(body0) + p.0,
                    Err(p) => r == Err::<Option<Value>, CompileError>(p.1) && body_view(body1)
                        == body_view(body0) + p.0,
                }
            }),
        decreases *node, 1int,
    {
        let ghost frames = old(self).scope.frames@;
        let ghost cb = old(self).cur();
        let ghost body0 = old(self).module.functions@[cb].body@;
        proof {
            lemma_extended_at_refl(old(self).module, cb);
            assert(body_view(body0) + Seq::<InstrView>::empty() =~= body_view(body0));
        }
        match node {
            Node::NumberLiteral { value } => {
                proof {
                    assert(body_view(body0) + Seq::<InstrView>::empty() =~= body_view(body0));
                }
                Ok(Some(Value::Const { bits: *value }))
            },
            Node::Identifier { name, .. } => {
                let ptr: Option<usize> = match self.scope.search_by_name(name.as_str()) {
                    None => {
                        return Err(CompileError::UnknownSymbol);
                    },
                    Some(ScopeType::Function { .. }) => {
                        return Err(CompileError::VoidValue);
                    },
                    Some(ScopeType::Variable { ptr, .. }) => *ptr,
                };
                match ptr {
                    None => Err(CompileError::VoidValue),
                    Some(slot) => {
                        let idx = self.emit(Instr::Load { slot });
                        proof {
                            lemma_body_view_concat(body0, seq![Instr::Load { slot }]);
                            assert(body_view(seq![Instr::Load { slot }]) =~= seq![
                                InstrView::Load { slot: slot as int },
                            ]);
                        }
                        Ok(Some(Value::Reg { index: idx }))
                    },
                }
            },
            Node::CallExpression { callee, arguments } => {
                let (fn_index, return_kind): (usize, Kind) = match &**callee {
                    Node::Identifier { name, .. } => {
                        match self.scope.search_by_name(name.as_str()) {
                            Some(ScopeType::Function { fn_index, return_kind, .. }) => (
                                *fn_index,
                                *return_kind,
                            ),
                            _ => {
                                return Err(CompileError::UnknownSymbol);
                            },
                        }
                    },
                    _ => {
                        return Err(CompileError::MalformedNode);
                    },
                };
                proof {
                    assert(decreases_to!(*node => *arguments));
                }
                let args = match self.compile_arguments(arguments) {
                    Err(e) => {
                        return Err(e);
                    },
                    Ok(vs) => vs,
                };
                let ghost m_args = self.module;
                let ghost ins = args_out(frames, body0.len() as int, arguments@, 0)->Ok_0.0;
                let call_instr = Instr::Call { func: fn_index, args };
                proof {
                    assert(body_view(m_args.functions@[cb].body@) == body_view(body0) + ins);
                    assert(body_view(m_args.functions@[cb].body@).len() == m_args.functions@[cb].body@.len());
                    assert(body_view(body0).len() == body0.len());
                    assert(m_args.functions@[cb].body@.len() == body0.len() + ins.len());
                }
                let idx = self.emit(call_instr);
                proof {
                    lemma_extended_at_trans(old(self).module, m_args, self.module, cb);
                    lemma_body_view_concat(m_args.functions@[cb].body@, seq![call_instr]);
                    assert((body_view(body0) + ins) + body_view(seq![call_instr]) =~= body_view(
                        body0,
                    ) + ins.push(instr_view(call_instr)));
                }
                let is_void = match return_kind {
                    Kind::Exact(KindName::Void) => true,
                    _ => false,
                };
                if is_void {
                    Ok(None)
                } else {
                    Ok(Some(Value::Reg { index: idx }))
                }
            },
            Node::BinaryExpression { left, right, operator } => {
                let lv = match self.compile_expression(&**left) {
                    Err(e) => {
                        return Err(e);
                    },
                    Ok(None) => {
                        return Err(CompileError::VoidValue);
                    },
                    Ok(Some(v)) => v,
                };
                let ghost m_left = self.module;
                let ghost ins_l = expr_out(frames, body0.len() as int, **left)->Ok_0.0;
                proof {
                    assert(body_view(m_left.functions@[cb].body@).len() == m_left.functions@[cb].body@.len());
                    assert(body_view(body0).len() == body0.len());
                    assert(m_left.functions@[cb].body@.len() == body0.len() + ins_l.len());
                }
                let rv = match self.compile_expression(&**right) {
                    Err(e) => {
                        proof {
                            lemma_extended_at_trans(old(self).module, m_left, self.module, cb);
                        }
                        return Err(e);
                    },
                    Ok(None) => {
                        proof {
                            lemma_extended_at_trans(old(self).module, m_left, self.module, cb);
                        }
                        return Err(CompileError::VoidValue);
                    },
                    Ok(Some(v)) => v,
                };
                proof {
                    lemma_extended_at_trans(old(self).module, m_left, self.module, cb);
                }
                let ghost m_ops = self.module;
                let ghost ins_r = expr_out(
                    frames,
                    body0.len() + ins_l.len() as int,
                    **right,
                )->Ok_0.0;
                proof {
                    assert(body_view(m_ops.functions@[cb].body@) =~= body_view(body0) + ins_l
                        + ins_r);
                    assert(body_view(m_ops.functions@[cb].body@).len() == m_ops.functions@[cb].body@.len());
                    assert(body_view(body0).len() == body0.len());
                    assert(m_ops.functions@[cb].body@.len() == body0.len() + ins_l.len()
                        + ins_r.len());
                }
                let r = match self.compile_binary_expression(lv, rv, operator.as_str()) {
                    Err(e) => Err(e),
                    Ok(v) => Ok(Some(v)),
                };
                proof {
                    lemma_extended_at_trans(old(self).module, m_ops, self.module, cb);
                    match bin_op_of(operator@) {
                        Some(op) => {
                            let bin_instr = Instr::Bin { op, left: lv, right: rv };
                            lemma_body_view_concat(m_ops.functions@[cb].body@, seq![bin_instr]);
                            assert(body_view(self.module.functions@[cb].body@) =~= body_view(
                                body0,
                            ) + (ins_l + ins_r + seq![instr_view(bin_instr)]));
                        },
                        None => {},
                    }
                }
                r
            },
            Node::AssignmentExpression { left, right, .. } => {
                let ptr: Option<usize> = match &**left {
                    Node::Identifier { name, .. } => {
                        match self.scope.search_by_name(name.as_str()) {
                            None => {
                                return Err(CompileError::UnknownSymbol);
                            },
                            Some(ScopeType::Function { .. }) => {
                                return Err(CompileError::VoidValue);
                            },
                            Some(ScopeType::Variable { ptr, .. }) => *ptr,
                        }
                    },
                    _ => {
                        return Err(CompileError::MalformedNode);
                    },
                };
                let v = match self.compile_expression(&**right) {
                    Err(e) => {
                        return Err(e);
                    },
                    Ok(None) => {
                        return Err(CompileError::VoidValue);
                    },
                    Ok(Some(v)) => v,
                };
                match ptr {
                    None => Err(CompileError::VoidValue),
                    Some(slot) => {
                        let ghost m_rhs = self.module;
                        let ghost ins = expr_out(frames, body0.len() as int, **right)->Ok_0.0;
                        let store_instr = Instr::Store { slot, value: v };
                        self.emit(store_instr);
                        proof {
                            lemma_extended_at_trans(old(self).module, m_rhs, self.module, cb);
                            lemma_body_view_concat(m_rhs.functions@[cb].body@, seq![store_instr]);
                            assert((body_view(body0) + ins) + body_view(seq![store_instr])
                                =~= body_view(body0) + ins.push(instr_view(store_instr)));
                        }
                        Ok(Some(v))
                    },
                }
            },
            _ => Err(CompileError::MalformedNode),
        }
    }

    /// Reads the declared kinds off a parameter list — exactly
    /// `arg_kinds_spec`, in two equal copies (one for the IR function
    /// header, one for the scope binding).
    fn collect_arg_kinds(arguments: &Vec<Node>) -> (r: Result<
        (Vec<KindName>, Vec<KindName>),
        CompileError,
    >)
        ensures
            r matches Ok(p) ==> arg_kinds_spec(arguments@, 0) == Ok::<Seq<KindName>, CompileError>(
                p.0@,
            ) && p.0@ == p.1@ && p.0@.len() == arguments@.len() && forall|i: int|
                0 <= i < arguments@.len() ==> (#[trigger] arguments@[i]) is Identifier,
            r matches Err(e) ==> arg_kinds_spec(arguments@, 0) == Err::<Seq<KindName>, CompileError>(
                e,
            ),
            arguments@.len() == 0 ==> r is Ok,
    {
        let mut a: Vec<KindName> = Vec::new();
        let mut b: Vec<KindName> = Vec::new();
        let mut i: usize = 0;
        proof {
            match arg_kinds_spec(arguments@, 0) {
                Ok(rest) => {
                    assert(Seq::<KindName>::empty() + rest =~= rest);
                },
                Err(_) => {},
            }
        }
        while i < arguments.len()
            invariant
                0 <= i <= arguments@.len(),
                a@ == b@,
                a@.len() == i,
                forall|j: int| 0 <= j < i ==> (#[trigger] arguments@[j]) is Identifier,
                ({
                    match arg_kinds_spec(arguments@, i as int) {
                        Ok(rest) => arg_kinds_spec(arguments@, 0) == Ok::<
                            Seq<KindName>,
                            CompileError,
                        >(a@ + rest),
                        Err(e) => arg_kinds_spec(arguments@, 0) == Err::<
                            Seq<KindName>,
                            CompileError,
                        >(e),
                    }
                }),
            decreases arguments@.len() - i,
        {
            match &arguments[i] {
                Node::Identifier { kind, .. } => {
                    match kind.read_kind_name() {
                        Some(KindName::Void) => {
                            return Err(CompileError::InvalidTypeAnnotation);
                        },
                        Some(k) => {
                            proof {
                                match arg_kinds_spec(arguments@, i + 1) {
                                    Ok(rest) => {
                                        assert(arg_kinds_spec(arguments@, i as int) == Ok::<
                                            Seq<KindName>,
                                            CompileError,
                                        >(seq![k] + rest));
                                        assert(a@ + (seq![k] + rest) =~= a@.push(k) + rest);
                                    },
                                    Err(_) => {},
                                }
                            }
                            a.push(k);
                            b.push(k);
                        },
                        None => {
                            return Err(CompileError::MalformedNode);
                        },
                    }
                },
                _ => {
                    return Err(CompileError::MalformedNode);
                },
            }
            i = i + 1;
        }
        proof {
            assert(a@ + Seq::<KindName>::empty() =~= a@);
        }
        Ok((a, b))
    }

    /// Binds each parameter in the freshly pushed (still empty) function
    /// frame, with storage initialized from the incoming parameter value:
    /// on success, exactly the `params_view` prologue is emitted, one slot
    /// per parameter is reserved, and the frame binds each parameter name
    /// to its storage. The one failure is a repeated parameter name.
    fn bind_params(&mut self, arguments: &Vec<Node>) -> (r: Result<(), CompileError>)
        requires
            old(self).wf(),
            old(self).depth() > 0,
            old(self).scope.frames@.last().entries@.len() == 0,
            arg_kinds_spec(arguments@, 0) is Ok,
        ensures
            final(self).wf(),
            final(self).depth() == old(self).depth(),
            final(self).cur() == old(self).cur(),
            final(self).scope.frames@.drop_last() == old(self).scope.frames@.drop_last(),
            module_extends(old(self).module, final(self).module),
            final(self).module.functions@.len() == old(self).module.functions@.len(),
            arguments@.len() == 0 ==> r is Ok,
            r is Err ==> r == Err::<(), CompileError>(CompileError::DuplicateSymbol),
            (forall|i: int, j: int|
                0 <= i < j < arguments@.len() ==> (#[trigger] arguments@[i])->Identifier_name@ != (
                #[trigger] arguments@[j])->Identifier_name@) ==> r is Ok,
            r is Ok ==> ({
                let slot0 = old(self).module.slots@.len() as int;
                let body0 = old(self).module.functions@[old(self).cur()].body@;
                let body1 = final(self).module.functions@[old(self).cur()].body@;
                let entries1 = final(self).scope.frames@.last().entries@;
                &&& body_view(body1) == body_view(body0) + params_view(arguments@, slot0, 0)
                &&& final(self).module.slots@.len() == old(self).module.slots@.len()
                    + arguments@.len()
                &&& entries1.len() == arguments@.len()
                &&& forall|i: int|
                    0 <= i < arguments@.len() ==> (#[trigger] entries1[i]).0@
                        == arguments@[i]->Identifier_name@ && entries1[i].1 == (ScopeType::Variable {
                        kind: arguments@[i]->Identifier_kind,
                        ptr: Some((slot0 + i) as usize),
                    })
            }),
    {
        let ghost frames0 = old(self).scope.frames@;
        let ghost cb = old(self).cur();
        let ghost slot0 = old(self).module.slots@.len() as int;
        let ghost body0 = old(self).module.functions@[cb].body@;
        let ghost args_seq = arguments@;
        proof {
            lemma_module_extends_refl(old(self).module);
            assert(body_view(body0) + Seq::<InstrView>::empty() =~= body_view(body0));
        }
        let mut i: usize = 0;
        while i < arguments.len()
            invariant
                self.wf(),
                self.depth() == old(self).depth(),
                self.depth() > 0,
                self.cur() == cb,
                cb == old(self).cur(),
                args_seq == arguments@,
                arg_kinds_spec(args_seq, 0) is Ok,
                self.scope.frames@.drop_last() == old(self).scope.frames@.drop_last(),
                module_extends(old(self).module, self.module),
                self.module.functions@.len() == old(self).module.functions@.len(),
                slot0 == old(self).module.slots@.len() as int,
                body0 == old(self).module.functions@[cb].body@,
                0 <= i <= args_seq.len(),
                self.module.slots@.len() == slot0 + i,
                body_view(self.module.functions@[cb].body@) == body_view(body0) + params_view(
                    args_seq,
                    slot0,
                    0,
                ).take(2 * i as int),
                self.scope.frames@.last().entries@.len() == i,
                forall|k: int|
                    0 <= k < i ==> (#[trigger] self.scope.frames@.last().entries@[k]).0@
                        == args_seq[k]->Identifier_name@
                        && self.scope.frames@.last().entries@[k].1 == (ScopeType::Variable {
                        kind: args_seq[k]->Identifier_kind,
                        ptr: Some((slot0 + k) as usize),
                    }),
            decreases args_seq.len() - i,
        {
            let ghost m_before = self.module;
            let ghost entries_before = self.scope.frames@.last().entries@;
            let param = Value::Param { index: i };
            proof {
                lemma_arg_kinds_identifier(args_seq, 0, i as int);
            }
            let slots_before = self.module.slots.len();
            let step = match &arguments[i] {
                Node::Identifier { name, kind } => {
                    let st = self.put_variable(name.as_str(), *kind, Some(param), true);
                    proof {
                        lemma_module_extends_trans(old(self).module, m_before, self.module);
                        match st {
                            Ok(_) => {
                                let bodyn = self.module.functions@[cb].body@;
                                let bodyb = m_before.functions@[cb].body@;
                                lemma_params_view_unfold(args_seq, slot0, i as int);
                                lemma_params_view_len_index(args_seq, slot0, 0);
                                let name_i = args_seq[i as int]->Identifier_name@;
                                let pair = seq![
                                    InstrView::Alloca { slot: slot0 + i, name: name_i, arg: true },
                                    InstrView::Store {
                                        slot: slot0 + i,
                                        value: Value::Param { index: i as usize },
                                    },
                                ];
                                assert(name@ == name_i);
                                assert(slots_before as int == slot0 + i);
                                assert(((slot0 + i) as usize) as int == slot0 + i);
                                assert(bodyn.take(bodyb.len() as int) == bodyb);
                                assert forall|ix: int| 0 <= ix < bodyb.len() implies bodyn[ix]
                                    == bodyb[ix] by {
                                    assert(bodyn.take(bodyb.len() as int)[ix] == bodyn[ix]);
                                }
                                assert(bodyn[bodyb.len() as int] is Alloca);
                                assert(bodyn[bodyb.len() as int]->Alloca_slot == (slot0
                                    + i) as usize);
                                assert(bodyn[bodyb.len() as int]->Alloca_name@ == name_i);
                                assert(bodyn[bodyb.len() as int]->Alloca_arg == true);
                                assert(instr_view(bodyn[bodyb.len() as int]) == pair[0]);
                                assert(instr_view(bodyn[bodyn.len() - 1]) == pair[1]);
                                assert(body_view(bodyn) =~= body_view(bodyb) + pair);
                                assert(body_view(bodyn) =~= body_view(body0) + params_view(
                                    args_seq,
                                    slot0,
                                    0,
                                ).take(2 * (i + 1) as int));
                                assert(self.scope.frames@.last().entries@.take(i as int)
                                    == entries_before);
                                assert forall|k: int|
                                    0 <= k < i + 1 implies (#[trigger] self.scope.frames@.last().entries@[k]).0@
                                    == args_seq[k]->Identifier_name@
                                    && self.scope.frames@.last().entries@[k].1 == (
                                ScopeType::Variable {
                                    kind: args_seq[k]->Identifier_kind,
                                    ptr: Some((slot0 + k) as usize),
                                }) by {
                                    if k < i {
                                        assert(self.scope.frames@.last().entries@.take(i as int)[k]
                                            == self.scope.frames@.last().entries@[k]);
                                    }
                                }
                            },
                            Err(e) => {
                                assert(e == CompileError::DuplicateSymbol);
                                let k = choose|k: int|
                                    0 <= k < entries_before.len() && entries_before[k].0@ == name@;
                                assert(args_seq[k]->Identifier_name@ == args_seq[i as int]->Identifier_name@);
                            },
                        }
                    }
                    st
                },
                _ => unreached(),
            };
            match step {
                Ok(()) => {},
                Err(e) => {
                    return Err(e);
                },
            }
            i = i + 1;
        }
        proof {
            lemma_params_view_len_index(args_seq, slot0, 0);
            assert(params_view(args_seq, slot0, 0).take(2 * i as int) =~= params_view(
                args_seq,
                slot0,
                0,
            ));
        }
        Ok(())
    }

    /// Combines two already-computed operand values with an arithmetic
    /// operator, emitting one `Bin` instruction. Operators outside
    /// `+ - * /` are an internal error: the parser never produces them.
    fn compile_binary_expression(&mut self, left: Value, right: Value, operator: &str) -> (r:
        Result<Value, CompileError>)
        requires
            old(self).wf(),
            old(self).depth() > 0,
        ensures
            final(self).wf(),
            final(self).scope == old(self).scope,
            bin_op_of(operator@) is None ==> r == Err::<Value, CompileError>(
                CompileError::UnsupportedOperator,
            ) && final(self).module == old(self).module,
            bin_op_of(operator@) matches Some(op) ==> body_extended(
                old(self).module,
                final(self).module,
                old(self).cur(),
                seq![Instr::Bin { op, left, right }],
            ) && r == Ok::<Value, CompileError>(
                Value::Reg { index: old(self).module.functions@[old(self).cur()].body@.len() as usize },
            ),
    {
        let op = if str_eq(operator, "+") {
            BinOp::Add
        } else if str_eq(operator, "-") {
            BinOp::Sub
        } else if str_eq(operator, "*") {
            BinOp::Mul
        } else if str_eq(operator, "/") {
            BinOp::Div
        } else {
            return Err(CompileError::UnsupportedOperator);
        };
        let idx = self.emit(Instr::Bin { op, left, right });
        Ok(Value::Reg { index: idx })
    }

    /// Lowers one statement into the current block. The scope stack comes
    /// back at exactly the depth it had, whatever the outcome; only the
    /// innermost frame can have gained a binding. Statement forms with no
    /// specified lowering in this core (`if`, `loop`, `break`, `continue`)
    /// are left untouched.
    #[verifier::rlimit(100)]
    pub fn compile_statement(&mut self, node: &Node) -> (r: Result<(), CompileError>)
        requires
            old(self).wf(),
            old(self).depth() > 0,
        ensures
            final(self).wf(),
            final(self).depth() == old(self).depth(),
            final(self).cur() == old(self).cur(),
            final(self).scope.frames@.drop_last() == old(self).scope.frames@.drop_last(),
            module_extends(old(self).module, final(self).module),
            !(*node is FunctionDeclaration) && !(*node is VariableDeclaration) && !(*node
                is BlockStatement) && !(*node is ReturnStatement) && !(*node
                is ExpressionStatement) ==> r == Ok::<(), CompileError>(()) && *final(self)
                == *old(self),
            *node matches Node::VariableDeclaration { id, .. } ==> ({
                &&& !(*id is Identifier) ==> r == Err::<(), CompileError>(
                    CompileError::MalformedNode,
                ) && *final(self) == *old(self)
                &&& *id matches Node::Identifier { name, .. } ==> ({
                    &&& r is Ok ==> frame_contains(final(self).scope.frames@.last(), name@)
                        && !frame_contains(old(self).scope.frames@.last(), name@)
                    &&& frame_contains(old(self).scope.frames@.last(), name@) ==> r is Err
                })
                &&& *id matches Node::Identifier { name, kind } ==> (kind matches Kind::Exact(kn)
                    ==> (r is Ok && !(kn is Void) ==> scope_declared(
                    old(self).scope.frames@,
                    final(self).scope.frames@,
                    name@,
                    ScopeType::Variable {
                        kind,
                        ptr: Some(old(self).module.slots@.len() as usize),
                    },
                )))
            }),
            *node matches Node::FunctionDeclaration { id, .. } ==> ({
                &&& !(*id is Identifier) ==> r == Err::<(), CompileError>(
                    CompileError::MalformedNode,
                ) && *final(self) == *old(self)
                &&& *id matches Node::Identifier { name, .. } ==> (r is Ok ==> frame_contains(
                    final(self).scope.frames@.last(),
                    name@,
                ) && final(self).module.functions@.len() > old(self).module.functions@.len())
            }),
            *node matches Node::FunctionDeclaration { id, body, .. } ==> (*id is Identifier && !(
            *body is BlockStatement) ==> r == Err::<(), CompileError>(CompileError::MalformedNode)
                && *final(self) == *old(self)),
            *node matches Node::FunctionDeclaration { id, arguments, body, return_kind } ==> (*id
                is Identifier && *body is BlockStatement ==> ({
                &&& !(return_kind is Exact) ==> r == Err::<(), CompileError>(
                    CompileError::MalformedNode,
                ) && *final(self) == *old(self)
                &&& return_kind is Exact ==> (arg_kinds_spec(arguments@, 0) matches Err(e) ==> r
                    == Err::<(), CompileError>(e) && *final(self) == *old(self))
            })),
            *node matches Node::VariableDeclaration { id, init } ==> (*id matches Node::Identifier {
                name,
                kind,
            } ==> ({
                let frames0 = old(self).scope.frames@;
                let body0 = old(self).module.functions@[old(self).cur()].body@;
                let body1 = final(self).module.functions@[old(self).cur()].body@;
                let k_res = if kind is Exact {
                    Ok::<Kind, CompileError>(kind)
                } else {
                    infer_kind_spec(frames0, *init)
                };
                match k_res {
                    Err(e) => r == Err::<(), CompileError>(e) && *final(self) == *old(self),
                    Ok(k) => match expr_out(frames0, body0.len() as int, *init) {
                        Err(p) => r == Err::<(), CompileError>(p.1) && body_view(body1)
                            == body_view(body0) + p.0 && final(self).scope == old(self).scope,
                        Ok(p) => {
                            if p.1 is None {
                                r == Err::<(), CompileError>(CompileError::VoidValue) && body_view(
                                    body1,
                                ) == body_view(body0) + p.0 && final(self).scope == old(self).scope
                            } else if frame_contains(frames0.last(), name@) {
                                r == Err::<(), CompileError>(CompileError::DuplicateSymbol)
                                    && body_view(body1) == body_view(body0) + p.0 && final(self).scope == old(self).scope && final(self).module.slots@ == old(self).module.slots@
                            } else if !(k is Exact) {
                                r == Err::<(), CompileError>(CompileError::InvalidTypeAnnotation)
                                    && body_view(body1) == body_view(body0) + p.0 && final(self).scope == old(self).scope
                            } else if k == Kind::Exact(KindName::Void) {
                                r == Ok::<(), CompileError>(()) && body_view(body1) == body_view(
                                    body0,
                                ) + p.0 && scope_declared(
                                    frames0,
                                    final(self).scope.frames@,
                                    name@,
                                    ScopeType::Variable { kind: k, ptr: None },
                                )
                            } else {
                                let slot = old(self).module.slots@.len() as usize;
                                r == Ok::<(), CompileError>(()) && body_view(body1) == body_view(
                                    body0,
                                ) + p.0 + seq![
                                    InstrView::Alloca { slot: slot as int, name: name@, arg: false },
                                    InstrView::Store { slot: slot as int, value: p.1->0 },
                                ] && scope_declared(
                                    frames0,
                                    final(self).scope.frames@,
                                    name@,
                                    ScopeType::Variable { kind: k, ptr: Some(slot) },
                                ) && final(self).module.slots@ == old(self).module.slots@.push(
                                    k->0,
                                )
                            }
                        },
                    },
                }
            })),
            *node matches Node::FunctionDeclaration { id, arguments, body, .. } ==> (*body
                matches Node::BlockStatement { body: inner } ==> (*id is Identifier && r is Ok
                ==> exists|c_in: Compiler, c_out: Compiler|
                #[trigger] fn_lowering_trace(
                    c_in,
                    c_out,
                    old(self).depth(),
                    old(self).module.functions@.len() as int,
                    params_view(arguments@, old(self).module.slots@.len() as int, 0),
                    inner@,
                    final(self).module,
                    final(self).scope.frames@,
                ))),
            *node matches Node::BlockStatement { body } ==> (r is Ok ==> exists|
                c_in: Compiler,
                c_out: Compiler,
            |
                #[trigger] fn_lowering_trace(
                    c_in,
                    c_out,
                    old(self).depth(),
                    old(self).module.functions@.len() as int,
                    Seq::<InstrView>::empty(),
                    body@,
                    final(self).module,
                    final(self).scope.frames@,
                )),
            *node matches Node::BlockStatement { .. } ==> (r is Ok ==> ({
                let idx = old(self).module.functions@.len() as int;
                &&& final(self).scope.frames@ == old(self).scope.frames@
                &&& final(self).module.functions@.len() > idx
                &&& final(self).module.functions@[idx].name@ == "anonymous"@
                &&& final(self).module.functions@[idx].param_kinds@.len() == 0
                &&& final(self).module.functions@[idx].return_kind == KindName::Void
                &&& final(self).module.functions@[idx].body@.last() == (Instr::Ret { value: None })
            })),
            *node matches Node::ExpressionStatement { expression } ==> ({
                let body0 = old(self).module.functions@[old(self).cur()].body@;
                let body1 = final(self).module.functions@[old(self).cur()].body@;
                &&& final(self).scope == old(self).scope
                &&& match expr_out(old(self).scope.frames@, body0.len() as int, *expression) {
                    Err(p) => r == Err::<(), CompileError>(p.1) && body_view(body1) == body_view(
                        body0,
                    ) + p.0,
                    Ok(p) => r == Ok::<(), CompileError>(()) && body_view(body1) == body_view(
                        body0,
                    ) + p.0,
                }
            }),
            *node matches Node::ReturnStatement { argument } ==> ({
                let body0 = old(self).module.functions@[old(self).cur()].body@;
                let body1 = final(self).module.functions@[old(self).cur()].body@;
                let rk = old(self).module.functions@[old(self).cur()].return_kind;
                &&& final(self).scope == old(self).scope
                &&& match expr_out(old(self).scope.frames@, body0.len() as int, *argument) {
                    Err(p) => r == Err::<(), CompileError>(p.1) && body_view(body1) == body_view(
                        body0,
                    ) + p.0,
                    Ok(p) => {
                        if rk is Void {
                            r == Ok::<(), CompileError>(()) && body_view(body1) == body_view(body0)
                                + p.0 + seq![InstrView::Ret { value: None }] && final(self).scope
                                == old(self).scope
                        } else {
                            match p.1 {
                                None => r == Err::<(), CompileError>(CompileError::VoidValue)
                                    && body_view(body1) == body_view(body0) + p.0,
                                Some(v) => r == Ok::<(), CompileError>(()) && body_view(body1)
                                    == body_view(body0) + p.0 + seq![
                                    InstrView::Ret { value: Some(v) },
                                ] && final(self).scope == old(self).scope,
                            }
                        }
                    },
                }
            }),
        decreases *node, 3int,
    {
        proof {
            lemma_module_extends_refl(old(self).module);
        }
        match node {
            Node::FunctionDeclaration { id, arguments, body, return_kind } => {
                let name = match &**id {
                    Node::Identifier { name, .. } => name.as_str(),
                    _ => {
                        return Err(CompileError::MalformedNode);
                    },
                };
                let body_vec = match &**body {
                    Node::BlockStatement { body } => body,
                    _ => {
                        return Err(CompileError::MalformedNode);
                    },
                };
                proof {
                    assert(decreases_to!(*node => **body));
                    assert(decreases_to!(**body => *body_vec));
                    assert(decreases_to!(*body_vec => body_vec@));
                }
                match self.compile_function(name, arguments, body_vec, return_kind, true) {
                    Ok(_) => Ok(()),
                    Err(e) => Err(e),
                }
            },
            Node::VariableDeclaration { id, init } => {
                let (name, declared) = match &**id {
                    Node::Identifier { name, kind } => (name.as_str(), *kind),
                    _ => {
                        return Err(CompileError::MalformedNode);
                    },
                };
                // A declaration without an exact type derives one from the
                // initializer before any instruction is emitted.
                let kind = if declared.is_exact() {
                    declared
                } else {
                    match self.infer_expression_kind(&**init) {
                        Ok(k) => k,
                        Err(e) => {
                            return Err(e);
                        },
                    }
                };
                let init_value = match self.compile_expression(&**init) {
                    Err(e) => {
                        return Err(e);
                    },
                    Ok(None) => {
                        return Err(CompileError::VoidValue);
                    },
                    Ok(Some(v)) => v,
                };
                let ghost m_init = self.module;
                let r = self.put_variable(name, kind, Some(init_value), false);
                proof {
                    lemma_extended_at_extends(old(self).module, m_init, old(self).cur());
                    lemma_module_extends_trans(old(self).module, m_init, self.module);
                    if r is Ok {
                        let f1 = self.scope.frames@.last();
                        assert(f1.entries@[f1.entries@.len() - 1].0@ == name@);
                    }
                }
                r
            },
            Node::BlockStatement { body } => {
                proof {
                    assert(decreases_to!(*node => *body));
                    assert(decreases_to!(*body => body@));
                }
                self.compile_block_statement(body, false)
            },
            Node::ReturnStatement { argument } => {
                // A conforming lowering ends the statement with an actual
                // return terminator carrying the computed value, matched
                // against the enclosing function's declared return kind.
                let v = match self.compile_expression(&**argument) {
                    Err(e) => {
                        return Err(e);
                    },
                    Ok(v) => v,
                };
                let cb = self.scope.current_block();
                proof {
                    assert(self.scope.frames@[self.scope.frames@.len() - 1]
                        == self.scope.frames@.last());
                }
                let ghost m_arg = self.module;
                let is_void = match self.module.functions[cb].return_kind {
                    KindName::Void => true,
                    _ => false,
                };
                if is_void {
                    self.emit(Instr::Ret { value: None });
                    proof {
                        lemma_extended_at_trans(old(self).module, m_arg, self.module, old(self).cur());
                        lemma_extended_at_extends(old(self).module, self.module, old(self).cur());
                    }
                    Ok(())
                } else {
                    match v {
                        Some(v) => {
                            self.emit(Instr::Ret { value: Some(v) });
                            proof {
                                lemma_extended_at_trans(
                                    old(self).module,
                                    m_arg,
                                    self.module,
                                    old(self).cur(),
                                );
                                lemma_extended_at_extends(
                                    old(self).module,
                                    self.module,
                                    old(self).cur(),
                                );
                            }
                            Ok(())
                        },
                        None => {
                            proof {
                                lemma_extended_at_extends(
                                    old(self).module,
                                    self.module,
                                    old(self).cur(),
                                );
                            }
                            Err(CompileError::VoidValue)
                        },
                    }
                }
            },
            Node::ExpressionStatement { expression } => {
                // The value, if any, is computed for its side effects and
                // discarded.
                match self.compile_expression(&**expression) {
                    Err(e) => {
                        proof {
                            lemma_extended_at_extends(old(self).module, self.module, old(self).cur());
                        }
                        Err(e)
                    },
                    Ok(_) => {
                        proof {
                            lemma_extended_at_extends(old(self).module, self.module, old(self).cur());
                        }
                        Ok(())
                    },
                }
            },
            _ => Ok(()),
        }
    }

    /// Lowers a function: builds its header from the declared parameter
    /// and return kinds, appends it to the module, optionally binds its
    /// name in the enclosing frame, then compiles the body inside a fresh
    /// frame bound to the new function's entry block. The frame is released
    /// on every exit path, so the stack depth always comes back to what it
    /// was — the scope-balance invariant.
    pub fn compile_function(
        &mut self,
        name: &str,
        arguments: &Vec<Node>,
        body: &Vec<Node>,
        return_kind: &Kind,
        bind_in_parent: bool,
    ) -> (r: Result<usize, CompileError>)
        requires
            old(self).wf(),
            bind_in_parent ==> old(self).depth() > 0,
        ensures
            final(self).wf(),
            final(self).depth() == old(self).depth(),
            module_extends(old(self).module, final(self).module),
            old(self).depth() > 0 ==> final(self).cur() == old(self).cur()
                && final(self).scope.frames@.drop_last() == old(self).scope.frames@.drop_last(),
            !bind_in_parent ==> final(self).scope.frames@ == old(self).scope.frames@,
            !(*return_kind is Exact) ==> r == Err::<usize, CompileError>(
                CompileError::MalformedNode,
            ) && *final(self) == *old(self),
            *return_kind is Exact ==> (arg_kinds_spec(arguments@, 0) matches Err(e) ==> r == Err::<
                usize,
                CompileError,
            >(e) && *final(self) == *old(self)),
            bind_in_parent && frame_contains(old(self).scope.frames@.last(), name@) ==> r is Err,
            bind_in_parent && *return_kind is Exact && arg_kinds_spec(arguments@, 0) is Ok
                && frame_contains(old(self).scope.frames@.last(), name@) ==> r == Err::<
                usize,
                CompileError,
            >(CompileError::DuplicateSymbol),
            bind_in_parent ==> (r is Ok ==> frame_contains(final(self).scope.frames@.last(), name@)),
            !bind_in_parent && *return_kind is Exact && arguments@.len() == 0 && body@.len() == 0
                ==> r is Ok,
            !bind_in_parent && *return_kind is Exact && arg_kinds_spec(arguments@, 0) is Ok && (
            forall|i: int, j: int|
                0 <= i < j < arguments@.len() ==> (#[trigger] arguments@[i])->Identifier_name@ != (
                #[trigger] arguments@[j])->Identifier_name@) && body@.len() == 0 ==> r is Ok,
            r matches Ok(idx) ==> exists|c_in: Compiler, c_out: Compiler|
                #[trigger] fn_lowering_trace(
                    c_in,
                    c_out,
                    old(self).depth(),
                    idx as int,
                    params_view(arguments@, old(self).module.slots@.len() as int, 0),
                    body@,
                    final(self).module,
                    final(self).scope.frames@,
                ),
            r matches Ok(idx) ==> ({
                &&& idx == old(self).module.functions@.len()
                &&& idx < final(self).module.functions@.len()
                &&& final(self).module.functions@[idx as int].name@ == name@
                &&& final(self).module.functions@[idx as int].param_kinds@.len()
                    == arguments@.len()
                &&& (arg_kinds_spec(arguments@, 0) matches Ok(ks) && final(self).module.functions@[idx as int].param_kinds@ == ks)
                &&& (*return_kind matches Kind::Exact(kn) ==> final(self).module.functions@[idx as int].return_kind == kn)
                &&& final(self).module.functions@[idx as int].body@.len() >= 1
                &&& final(self).module.functions@[idx as int].body@.last() == (Instr::Ret {
                    value: None,
                })
                &&& body_view(final(self).module.functions@[idx as int].body@).take(
                    2 * arguments@.len() as int,
                ) == params_view(arguments@, old(self).module.slots@.len() as int, 0)
            }),
        decreases body@, 1int,
    {
        let kn = match return_kind.read_kind_name() {
            Some(kn) => kn,
            None => {
                return Err(CompileError::MalformedNode);
            },
        };
        let (param_kinds, arg_kind_names) = match Self::collect_arg_kinds(arguments) {
            Ok(p) => p,
            Err(e) => {
                return Err(e);
            },
        };
        let fn_index = self.module.functions.len();
        self.module.functions.push(
            IrFunction {
                name: String::from_str(name),
                param_kinds,
                return_kind: kn,
                body: Vec::new(),
            },
        );
        let ghost c_created = *self;
        proof {
            assert(module_extends(old(self).module, self.module)) by {
                assert forall|i: int| 0 <= i < old(self).module.functions@.len() implies fn_header_eq(
                    old(self).module.functions@[i],
                    #[trigger] self.module.functions@[i],
                ) && old(self).module.functions@[i].body@.is_prefix_of(
                    self.module.functions@[i].body@,
                ) by {
                    assert(self.module.functions@[i] == old(self).module.functions@[i]);
                    assert(old(self).module.functions@[i].body@.subrange(
                        0,
                        old(self).module.functions@[i].body@.len() as int,
                    ) =~= old(self).module.functions@[i].body@);
                }
            }
        }
        if bind_in_parent {
            match self.put_function(name, fn_index, arg_kind_names, *return_kind) {
                Ok(()) => {},
                Err(e) => {
                    return Err(e);
                },
            }
        }
        let ghost c_bound = *self;
        self.push_block_scope(fn_index);
        let ghost c_pushed = *self;
        match self.bind_params(arguments) {
            Ok(()) => {},
            Err(e) => {
                proof {
                    lemma_module_extends_trans(c_created.module, c_pushed.module, self.module);
                    lemma_module_extends_trans(old(self).module, c_created.module, self.module);
                }
                self.pop_block_scope();
                return Err(e);
            },
        }
        let ghost c_params = *self;
        match self.compile_block_statement(body, true) {
            Ok(()) => {},
            Err(e) => {
                proof {
                    lemma_module_extends_trans(c_created.module, c_params.module, self.module);
                    lemma_module_extends_trans(old(self).module, c_created.module, self.module);
                }
                self.pop_block_scope();
                return Err(e);
            },
        }
        let ghost c_body = *self;
        // The block always ends in a terminator; a `return` statement in
        // the body will have emitted its own before this implicit one.
        self.emit(Instr::Ret { value: None });
        proof {
            lemma_extended_at_extends(c_body.module, self.module, c_body.cur());
            lemma_module_extends_trans(c_created.module, c_body.module, self.module);
            lemma_module_extends_trans(old(self).module, c_created.module, self.module);
        }
        self.pop_block_scope();
        proof {
            reveal(fn_lowering_trace);
            let fbody0 = c_pushed.module.functions@[fn_index as int].body@;
            let fbody1 = c_params.module.functions@[fn_index as int].body@;
            let fbody2 = self.module.functions@[fn_index as int].body@;
            let slot0 = old(self).module.slots@.len() as int;
            assert(fbody0.len() == 0);
            assert(body_view(fbody0) =~= Seq::<InstrView>::empty());
            assert(body_view(fbody1) =~= params_view(arguments@, slot0, 0));
            lemma_params_view_len_index(arguments@, slot0, 0);
            assert(body_view(fbody1).len() == fbody1.len());
            assert(fbody1.is_prefix_of(fbody2));
            assert forall|ix: int| 0 <= ix < fbody1.len() implies fbody2[ix] == fbody1[ix] by {
                assert(fbody2.subrange(0, fbody1.len() as int)[ix] == fbody2[ix]);
            }
            assert(body_view(fbody2).take(2 * arguments@.len() as int) =~= body_view(fbody1));
            assert(fn_lowering_trace(
                c_params,
                c_body,
                old(self).depth(),
                fn_index as int,
                params_view(arguments@, old(self).module.slots@.len() as int, 0),
                body@,
                self.module,
                self.scope.frames@,
            ));
            if bind_in_parent {
                let f1 = self.scope.frames@.last();
                assert(self.scope.frames@ =~= c_bound.scope.frames@);
                assert(f1.entries@[f1.entries@.len() - 1].0@ == name@);
            } else {
                assert(self.scope.frames@ =~= old(self).scope.frames@);
            }
        }
        Ok(fn_index)
    }

    /// Lowers a run of statements. As a function body (`is_fn_block`) the
    /// statements are compiled directly into the current frame; as a
    /// nested block they are wrapped in an anonymous parameterless void
    /// function instead — nested blocks do not share the enclosing
    /// function's frame, a deliberate simplification of block scoping.
    pub fn compile_block_statement(&mut self, node: &Vec<Node>, is_fn_block: bool) -> (r: Result<
        (),
        CompileError,
    >)
        requires
            old(self).wf(),
            old(self).depth() > 0,
        ensures
            final(self).wf(),
            final(self).depth() == old(self).depth(),
            final(self).cur() == old(self).cur(),
            final(self).scope.frames@.drop_last() == old(self).scope.frames@.drop_last(),
            module_extends(old(self).module, final(self).module),
            !is_fn_block ==> final(self).scope.frames@ == old(self).scope.frames@,
            is_fn_block && node@.len() == 0 ==> r is Ok,
            !is_fn_block ==> (r is Ok ==> exists|c_in: Compiler, c_out: Compiler|
                #[trigger] fn_lowering_trace(
                    c_in,
                    c_out,
                    old(self).depth(),
                    old(self).module.functions@.len() as int,
                    Seq::<InstrView>::empty(),
                    node@,
                    final(self).module,
                    final(self).scope.frames@,
                )),
            !is_fn_block ==> (r is Ok ==> ({
                let idx = old(self).module.functions@.len() as int;
                &&& final(self).module.functions@.len() > idx
                &&& final(self).module.functions@[idx].name@ == "anonymous"@
                &&& final(self).module.functions@[idx].param_kinds@.len() == 0
                &&& final(self).module.functions@[idx].return_kind == KindName::Void
                &&& final(self).module.functions@[idx].body@.len() >= 1
                &&& final(self).module.functions@[idx].body@.last() == (Instr::Ret { value: None })
            })),
            is_fn_block ==> (r is Ok ==> stmts_lowered_upto(
                *old(self),
                node@,
                node@.len() as int,
                *final(self),
            )),
            is_fn_block ==> (r matches Err(e) ==> exists|j: int, cm: Compiler|
                0 <= j < node@.len() && #[trigger] stmts_lowered_upto(*old(self), node@, j, cm)
                    && stmt_lowered(cm, node@[j], *final(self), Err(e))),
        decreases node@, (if is_fn_block { 0int } else { 2int }),
    {
        proof {
            lemma_module_extends_refl(old(self).module);
        }
        if !is_fn_block {
            let ghost depth0 = self.depth();
            let ghost idx = self.module.functions@.len() as int;
            let ghost slot0 = self.module.slots@.len() as int;
            let rk = Kind::Exact(KindName::Void);
            let empty_args: Vec<Node> = Vec::new();
            match self.compile_function("anonymous", &empty_args, node, &rk, false) {
                Ok(_) => {
                    proof {
                        reveal(fn_lowering_trace);
                        let (ci, co): (Compiler, Compiler) = choose|
                            ci: Compiler,
                            co: Compiler,
                        |
                            #[trigger] fn_lowering_trace(
                                ci,
                                co,
                                depth0,
                                idx,
                                params_view(empty_args@, slot0, 0),
                                node@,
                                self.module,
                                self.scope.frames@,
                            );
                        assert(params_view(empty_args@, slot0, 0) =~= Seq::<InstrView>::empty());
                        assert(fn_lowering_trace(
                            ci,
                            co,
                            depth0,
                            idx,
                            Seq::<InstrView>::empty(),
                            node@,
                            self.module,
                            self.scope.frames@,
                        ));
                    }
                    Ok(())
                },
                Err(e) => Err(e),
            }
        } else {
            proof {
                lemma_stmts_lowered_refl(*old(self), node@);
            }
            let mut i: usize = 0;
            while i < node.len()
                invariant
                    is_fn_block,
                    self.wf(),
                    self.depth() == old(self).depth(),
                    self.depth() > 0,
                    self.cur() == old(self).cur(),
                    self.scope.frames@.drop_last() == old(self).scope.frames@.drop_last(),
                    module_extends(old(self).module, self.module),
                    stmts_lowered_upto(*old(self), node@, i as int, *self),
                    0 <= i <= node@.len(),
                decreases node@.len() - i,
            {
                let ghost m_before = self.module;
                let ghost c_prev = *self;
                match self.compile_statement(&node[i]) {
                    Ok(()) => {},
                    Err(e) => {
                        proof {
                            lemma_module_extends_trans(old(self).module, m_before, self.module);
                            reveal(stmt_lowered);
                            assert(stmt_lowered(c_prev, node@[i as int], *self, Err(e)));
                        }
                        return Err(e);
                    },
                }
                proof {
                    lemma_module_extends_trans(old(self).module, m_before, self.module);
                    assert(stmt_lowered(c_prev, node@[i as int], *self, Ok(()))) by {
                        reveal(stmt_lowered);
                    }
                    lemma_stmts_lowered_snoc(*old(self), node@, i as int, c_prev, *self);
                }
                i = i + 1;
            }
            Ok(())
        }
    }

    /// Lowers a whole program: its top-level statements become the body of
    /// a parameterless void function named `entry`.
    pub fn compile_program(&mut self, node: &Node) -> (r: Result<(), CompileError>)
        requires
            old(self).wf(),
        ensures
            final(self).wf(),
            final(self).depth() == old(self).depth(),
            module_extends(old(self).module, final(self).module),
            !(*node is Program) ==> r == Err::<(), CompileError>(CompileError::MalformedNode)
                && *final(self) == *old(self),
            *node matches Node::Program { body } ==> (body@.len() == 0 ==> r is Ok),
            *node matches Node::Program { body } ==> (r is Ok ==> exists|
                c_in: Compiler,
                c_out: Compiler,
            |
                #[trigger] fn_lowering_trace(
                    c_in,
                    c_out,
                    old(self).depth(),
                    old(self).module.functions@.len() as int,
                    Seq::<InstrView>::empty(),
                    body@,
                    final(self).module,
                    final(self).scope.frames@,
                )),
            r is Ok ==> ({
                let idx = old(self).module.functions@.len() as int;
                &&& final(self).module.functions@.len() > idx
                &&& final(self).module.functions@[idx].name@ == "entry"@
                &&& final(self).module.functions@[idx].param_kinds@.len() == 0
                &&& final(self).module.functions@[idx].return_kind == KindName::Void
                &&& final(self).module.functions@[idx].body@.len() >= 1
                &&& final(self).module.functions@[idx].body@.last() == (Instr::Ret { value: None })
            }),
    {
        match node {
            Node::Program { body } => {
                let ghost depth0 = self.depth();
                let ghost idx = self.module.functions@.len() as int;
                let ghost slot0 = self.module.slots@.len() as int;
                let rk = Kind::Exact(KindName::Void);
                let empty_args: Vec<Node> = Vec::new();
                match self.compile_function("entry", &empty_args, body, &rk, false) {
                    Ok(_) => {
                        proof {
                            reveal(fn_lowering_trace);
                            let (ci, co): (Compiler, Compiler) = choose|
                                ci: Compiler,
                                co: Compiler,
                            |
                                #[trigger] fn_lowering_trace(
                                    ci,
                                    co,
                                    depth0,
                                    idx,
                                    params_view(empty_args@, slot0, 0),
                                    body@,
                                    self.module,
                                    self.scope.frames@,
                                );
                            assert(params_view(empty_args@, slot0, 0)
                                =~= Seq::<InstrView>::empty());
                            assert(fn_lowering_trace(
                                ci,
                                co,
                                depth0,
                                idx,
                                Seq::<InstrView>::empty(),
                                body@,
                                self.module,
                                self.scope.frames@,
                            ));
                        }
                        Ok(())
                    },
                    Err(e) => Err(e),
                }
            },
            _ => Err(CompileError::MalformedNode),
        }
    }

    /// Compiles a parsed program to an IR module. The tree is read, never
    /// changed; every failure is reported as a typed error and aborts the
    /// whole compilation with no partial output.
    pub fn compile(ast: &Node) -> (r: Result<IrModule, CompileError>)
        ensures
            !(*ast is Program) ==> r == Err::<IrModule, CompileError>(CompileError::MalformedNode),
            *ast matches Node::Program { body } ==> (body@.len() == 0 ==> r is Ok),
            *ast matches Node::Program { body } ==> (r matches Ok(m) ==> exists|
                c_in: Compiler,
                c_out: Compiler,
            |
                #[trigger] fn_lowering_trace(
                    c_in,
                    c_out,
                    0,
                    0,
                    Seq::<InstrView>::empty(),
                    body@,
                    m,
                    Seq::<Frame>::empty(),
                )),
            r matches Ok(m) ==> ({
                &&& m.functions@.len() >= 1
                &&& m.functions@[0].name@ == "entry"@
                &&& m.functions@[0].param_kinds@.len() == 0
                &&& m.functions@[0].return_kind == KindName::Void
                &&& m.functions@[0].body@.len() >= 1
                &&& m.functions@[0].body@.last() == (Instr::Ret { value: None })
            }),
    {
        let mut compiler = Compiler::new();
        match compiler.compile_program(ast) {
            Ok(()) => {
                proof {
                    reveal(fn_lowering_trace);
                    if ast matches Node::Program { body } {
                        let bodyseq = ast->Program_body@;
                        let (ci, co): (Compiler, Compiler) = choose|
                            ci: Compiler,
                            co: Compiler,
                        |
                            #[trigger] fn_lowering_trace(
                                ci,
                                co,
                                0,
                                0,
                                Seq::<InstrView>::empty(),
                                bodyseq,
                                compiler.module,
                                compiler.scope.frames@,
                            );
                        assert(compiler.scope.frames@ =~= Seq::<Frame>::empty());
                        assert(fn_lowering_trace(
                            ci,
                            co,
                            0,
                            0,
                            Seq::<InstrView>::empty(),
                            bodyseq,
                            compiler.module,
                            Seq::<Frame>::empty(),
                        ));
                    }
                }
                Ok(compiler.module)
            },
            Err(e) => Err(e),
        }
    }
}

} // verus!
