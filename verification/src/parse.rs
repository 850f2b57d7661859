//! The inference of the local type of a participant from the body of the
//! function that plays it: calls of `send` and `receive` on the session
//! become sends and receives, conditionals and matches become choices,
//! and loops become recursion.

use crate::ilt::{
    break_replaced, end_replaced, partial_view, partials_view, PartialLocalType, PartialSpec,
};
use crate::syntax::{
    arms_view, exprs_view, fn_args_view, stmts_view, turbofish_view, Arm, ArmSpec, Block, BlockSpec,
    Expr, ExprSpec, FnArg, FnArgSpec, GenericArgument, GenericArgumentSpec, Pat, PatSpec, Stmt,
    StmtSpec, Type, TypeSpec,
};
use vstd::prelude::*;
use vstd::string::StringExecFns;

verus! {

/// The type, or `End` where there is none.
pub open spec fn or_end(t: Option<PartialSpec>) -> PartialSpec {
    match t {
        Some(x) => x,
        None => PartialSpec::End,
    }
}

/// What one action followed by the rest of a sequence does: the rest
/// takes the place of each `End` of the action. A loop is left by its
/// `Break`s before the rest goes on; a jump back to a loop, or a `Break`,
/// ends the sequence.
pub open spec fn sequence_step(action: PartialSpec, rest: PartialSpec) -> PartialSpec {
    match action {
        PartialSpec::Send(label, cont) => PartialSpec::Send(label, Box::new(end_replaced(*cont, rest))),
        PartialSpec::Receive(label, cont) => PartialSpec::Receive(label, Box::new(end_replaced(*cont, rest))),
        PartialSpec::RecX(id, cont) => PartialSpec::RecX(
            id,
            Box::new(end_replaced(break_replaced(*cont, PartialSpec::End), rest)),
        ),
        PartialSpec::InternalChoice(choices) => end_replaced(action, rest),
        PartialSpec::ExternalChoice(choices) => end_replaced(action, rest),
        PartialSpec::End => rest,
        PartialSpec::X(id) => PartialSpec::X(id),
        PartialSpec::Break => PartialSpec::Break,
    }
}

/// What the actions from position `from` on do one after the other.
pub open spec fn sequenced(actions: Seq<PartialSpec>, from: int) -> PartialSpec
    decreases actions.len() - from,
{
    if from < 0 || from >= actions.len() {
        PartialSpec::End
    } else {
        sequence_step(actions[from], sequenced(actions, from + 1))
    }
}

/// The name of the session inside a block.
pub open spec fn session_name() -> Seq<char> {
    "s"@
}

/// The expression is the session `ident`.
pub open spec fn is_session(receiver: ExprSpec, ident: Seq<char>) -> bool {
    receiver matches ExprSpec::Path(p) && p.ident == Some(ident)
}

/// What a method call on the session does: `send` sends the label that
/// its first argument names, `receive` receives the label that its first
/// generic argument names, and `branch` does nothing by itself.
pub open spec fn session_call(
    method: Seq<char>,
    turbofish: Option<Seq<GenericArgumentSpec>>,
    args: Seq<ExprSpec>,
) -> Result<Option<PartialSpec>, Seq<char>> {
    if method == "send"@ {
        if args.len() == 0 {
            Err("Invalid send call"@)
        } else {
            match args[0] {
                ExprSpec::Struct { path, .. } => Ok(
                    Some(PartialSpec::Send(path.first, Box::new(PartialSpec::End))),
                ),
                ExprSpec::Path(path) => Ok(Some(PartialSpec::Send(path.last, Box::new(PartialSpec::End)))),
                _ => Err("Invalid send call"@),
            }
        }
    } else if method == "receive"@ {
        match turbofish {
            Some(generics) => if generics.len() == 0 {
                Err("Invalid receive call"@)
            } else {
                match generics[0] {
                    GenericArgumentSpec::Type(TypeSpec::Path(path)) => match path.ident {
                        Some(name) => Ok(
                            Some(PartialSpec::Receive(name, Box::new(PartialSpec::End))),
                        ),
                        None => Err("Invalid receive call"@),
                    },
                    _ => Err("Invalid receive call"@),
                }
            },
            None => Err("Invalid receive call"@),
        }
    } else if method == "branch"@ {
        Ok(None)
    } else {
        Err("Invalid method call"@)
    }
}

/// The message for an expression that the inference does not read.
pub open spec fn unsupported(source: Option<Seq<char>>, tokens: Seq<char>) -> Seq<char> {
    "Unsupported Rust construct: "@ + (match source {
        Some(text) => text,
        None => "ERROR printing expr"@,
    }) + ", of type "@ + tokens
}

/// The id of a loop inside the loop `rec_id`, or the error where there
/// is no such machine integer.
pub open spec fn next_rec_id(rec_id: int) -> Result<int, Seq<char>> {
    if rec_id < i32::MAX {
        Ok(rec_id + 1)
    } else {
        Err("Loops are nested too deeply"@)
    }
}

/// A loop around the body: the body, then back to the start, or out.
pub open spec fn loop_choice(body: PartialSpec, id: int) -> PartialSpec {
    PartialSpec::InternalChoice(seq![end_replaced(body, PartialSpec::X(id)), PartialSpec::End])
}

/// The local type of an expression, or `None` where the expression does
/// nothing on the session, or the message that says why it has none.
/// `ident` is the name of the session at the call; blocks go by
/// `session_name`. `rec_id` is the id of the loop around the expression.
pub open spec fn expr_type(e: ExprSpec, ident: Seq<char>, rec_id: int) -> Result<
    Option<PartialSpec>,
    Seq<char>,
>
    decreases e, 0nat,
{
    match e {
        ExprSpec::Call { func, args } => match exprs_types(args, ident, rec_id, args.len(), false) {
            Err(msg) => Err(msg),
            Ok(arg_types) => match expr_type(*func, ident, rec_id) {
                Err(msg) => Err(msg),
                Ok(call_type) => Ok(Some(end_replaced(or_end(call_type), sequenced(arg_types, 0)))),
            },
        },
        ExprSpec::MethodCall { receiver, method, turbofish, args } => match exprs_types(
            args,
            ident,
            rec_id,
            args.len(),
            false,
        ) {
            Err(msg) => Err(msg),
            Ok(arg_types) => if is_session(*receiver, ident) {
                session_call(method, turbofish, args)
            } else {
                Ok(Some(end_replaced(sequenced(arg_types, 0), PartialSpec::End)))
            },
        },
        ExprSpec::While { cond, body } => match next_rec_id(rec_id) {
            Err(msg) => Err(msg),
            Ok(id) => match expr_type(*cond, ident, id) {
                Err(msg) => Err(msg),
                Ok(cond_type) => match block_type(body, id) {
                    Err(msg) => Err(msg),
                    Ok(body_type) => Ok(
                        Some(
                            PartialSpec::RecX(
                                id,
                                Box::new(
                                    match cond_type {
                                        Some(c) => end_replaced(c, loop_choice(body_type, id)),
                                        None => loop_choice(body_type, id),
                                    },
                                ),
                            ),
                        ),
                    ),
                },
            },
        },
        ExprSpec::ForLoop { expr, body } => match next_rec_id(rec_id) {
            Err(msg) => Err(msg),
            Ok(id) => match expr_type(*expr, ident, id) {
                Err(msg) => Err(msg),
                Ok(pat_type) => match block_type(body, id) {
                    Err(msg) => Err(msg),
                    Ok(body_type) => Ok(
                        Some(
                            end_replaced(
                                or_end(pat_type),
                                PartialSpec::RecX(id, Box::new(loop_choice(body_type, id))),
                            ),
                        ),
                    ),
                },
            },
        },
        ExprSpec::Match { expr, arms } => match expr_type(*expr, ident, rec_id) {
            Err(msg) => Err(msg),
            Ok(head) => match arms_types(arms, ident, rec_id, arms.len()) {
                Err(msg) => Err(msg),
                Ok(choices) => Ok(Some(end_replaced(or_end(head), PartialSpec::ExternalChoice(choices)))),
            },
        },
        ExprSpec::If { cond, then_branch, else_branch } => match expr_type(*cond, ident, rec_id) {
            Err(msg) => Err(msg),
            Ok(cond_type) => match block_type(then_branch, rec_id) {
                Err(msg) => Err(msg),
                Ok(then_type) => match (match else_branch {
                    Some(other) => expr_type(*other, ident, rec_id),
                    None => Ok(None),
                }) {
                    Err(msg) => Err(msg),
                    Ok(else_type) => {
                        let choice = PartialSpec::InternalChoice(seq![then_type, or_end(else_type)]);
                        Ok(
                            Some(
                                match cond_type {
                                    Some(c) => end_replaced(c, choice),
                                    None => choice,
                                },
                            ),
                        )
                    },
                },
            },
        },
        ExprSpec::Break => Ok(Some(PartialSpec::Break)),
        ExprSpec::Loop { body } => match next_rec_id(rec_id) {
            Err(msg) => Err(msg),
            Ok(id) => match block_type(body, id) {
                Err(msg) => Err(msg),
                Ok(body_type) => Ok(
                    Some(PartialSpec::RecX(id, Box::new(end_replaced(body_type, PartialSpec::X(id))))),
                ),
            },
        },
        ExprSpec::Let { expr } => match expr_type(*expr, ident, rec_id) {
            Err(msg) => Err(msg),
            Ok(t) => Ok(Some(or_end(t))),
        },
        ExprSpec::Assign { right } => match expr_type(*right, ident, rec_id) {
            Err(msg) => Err(msg),
            Ok(t) => Ok(Some(or_end(t))),
        },
        ExprSpec::Struct { path, fields } => match exprs_types(fields, ident, rec_id, fields.len(), true) {
            Err(msg) => Err(msg),
            Ok(types) => Ok(Some(sequenced(types, 0))),
        },
        ExprSpec::Binary { left, right } => match expr_type(*left, ident, rec_id) {
            Err(msg) => Err(msg),
            Ok(l) => match expr_type(*right, ident, rec_id) {
                Err(msg) => Err(msg),
                Ok(r) => Ok(Some(sequenced(seq![or_end(l), or_end(r)], 0))),
            },
        },
        ExprSpec::Unary { expr } => match expr_type(*expr, ident, rec_id) {
            Err(msg) => Err(msg),
            Ok(t) => Ok(Some(or_end(t))),
        },
        ExprSpec::Range { start, end } => match (match start {
            Some(from) => expr_type(*from, ident, rec_id),
            None => Ok(None),
        }) {
            Err(msg) => Err(msg),
            Ok(l) => match (match end {
                Some(to) => expr_type(*to, ident, rec_id),
                None => Ok(None),
            }) {
                Err(msg) => Err(msg),
                Ok(r) => Ok(Some(sequenced(seq![or_end(l), or_end(r)], 0))),
            },
        },
        ExprSpec::Lit => Ok(None),
        ExprSpec::Path(_) => Ok(None),
        ExprSpec::Block(block) => match block_type(block, rec_id) {
            Err(msg) => Err(msg),
            Ok(t) => Ok(Some(t)),
        },
        ExprSpec::Group(inner) => expr_type(*inner, ident, rec_id),
        ExprSpec::Paren(inner) => expr_type(*inner, ident, rec_id),
        ExprSpec::Other { source, tokens } => Err(unsupported(source, tokens)),
    }
}

/// The local types of the first `n` expressions, in their order, or the
/// message of the first that has none. An expression that does nothing on
/// the session counts as `End` where `keep` holds, and is left out where
/// it does not.
pub open spec fn exprs_types(es: Seq<ExprSpec>, ident: Seq<char>, rec_id: int, n: nat, keep: bool) -> Result<
    Seq<PartialSpec>,
    Seq<char>,
>
    decreases es, n,
{
    if n == 0 || n > es.len() {
        Ok(Seq::empty())
    } else {
        match exprs_types(es, ident, rec_id, (n - 1) as nat, keep) {
            Err(msg) => Err(msg),
            Ok(before) => match expr_type(es[n - 1], ident, rec_id) {
                Err(msg) => Err(msg),
                Ok(Some(t)) => Ok(before.push(t)),
                Ok(None) => if keep {
                    Ok(before.push(PartialSpec::End))
                } else {
                    Ok(before)
                },
            },
        }
    }
}

/// The alternatives that the first `n` arms of a match stand for: each
/// receives the label that its pattern names and goes on with its body.
pub open spec fn arms_types(arms: Seq<ArmSpec>, ident: Seq<char>, rec_id: int, n: nat) -> Result<
    Seq<PartialSpec>,
    Seq<char>,
>
    decreases arms, n,
{
    if n == 0 || n > arms.len() {
        Ok(Seq::empty())
    } else {
        match arms_types(arms, ident, rec_id, (n - 1) as nat) {
            Err(msg) => Err(msg),
            Ok(before) => match arms[n - 1].pat {
                PatSpec::TupleStruct(path) => match expr_type(arms[n - 1].body, ident, rec_id) {
                    Err(msg) => Err(msg),
                    Ok(t) => Ok(before.push(PartialSpec::Receive(path.last, Box::new(or_end(t))))),
                },
                PatSpec::Path(path) => match expr_type(arms[n - 1].body, ident, rec_id) {
                    Err(msg) => Err(msg),
                    Ok(t) => Ok(before.push(PartialSpec::Receive(path.last, Box::new(or_end(t))))),
                },
                PatSpec::Other => Err("Invalid match arm"@),
            },
        }
    }
}

/// The local types of those of the first `n` statements that do
/// something on the session.
pub open spec fn stmts_types(stmts: Seq<StmtSpec>, rec_id: int, n: nat) -> Result<
    Seq<PartialSpec>,
    Seq<char>,
>
    decreases stmts, n,
{
    if n == 0 || n > stmts.len() {
        Ok(Seq::empty())
    } else {
        match stmts_types(stmts, rec_id, (n - 1) as nat) {
            Err(msg) => Err(msg),
            Ok(before) => match stmts[n - 1] {
                StmtSpec::Expr(e) => match expr_type(e, session_name(), rec_id) {
                    Err(msg) => Err(msg),
                    Ok(Some(t)) => Ok(before.push(t)),
                    Ok(None) => Ok(before),
                },
                StmtSpec::Other => Ok(before),
            },
        }
    }
}

/// The local type of a block: what its statements do one after the
/// other.
pub open spec fn block_type(b: BlockSpec, rec_id: int) -> Result<PartialSpec, Seq<char>>
    decreases b, 0nat,
{
    match stmts_types(b.stmts, rec_id, b.stmts.len()) {
        Err(msg) => Err(msg),
        Ok(actions) => Ok(sequenced(actions, 0)),
    }
}

/// The mathematical value of an optional local type.
pub open spec fn opt_view(t: Option<PartialLocalType>) -> Option<PartialSpec> {
    match t {
        Some(x) => Some(x@),
        None => None,
    }
}

/// The mathematical value of what the inference finds for an expression.
pub open spec fn found_view(r: Result<Option<PartialLocalType>, String>) -> Result<
    Option<PartialSpec>,
    Seq<char>,
> {
    match r {
        Ok(t) => Ok(opt_view(t)),
        Err(msg) => Err(msg@),
    }
}

/// The mathematical value of what the inference finds for a block.
pub open spec fn type_view(r: Result<PartialLocalType, String>) -> Result<PartialSpec, Seq<char>> {
    match r {
        Ok(t) => Ok(t@),
        Err(msg) => Err(msg@),
    }
}

/// The mathematical value of what the inference finds for a list.
pub open spec fn types_view(r: Result<Vec<PartialLocalType>, String>) -> Result<
    Seq<PartialSpec>,
    Seq<char>,
> {
    match r {
        Ok(ts) => Ok(partials_view(ts@)),
        Err(msg) => Err(msg@),
    }
}

/// An error among the first expressions is the error of the whole list.
pub proof fn lemma_exprs_error(es: Seq<ExprSpec>, ident: Seq<char>, rec_id: int, n: nat, m: nat, keep: bool)
    requires
        n <= m <= es.len(),
        exprs_types(es, ident, rec_id, n, keep) is Err,
    ensures
        exprs_types(es, ident, rec_id, m, keep) == exprs_types(es, ident, rec_id, n, keep),
    decreases m,
{
    if n < m {
        lemma_exprs_error(es, ident, rec_id, n, (m - 1) as nat, keep);
    }
}

/// An error among the first arms is the error of the whole match.
pub proof fn lemma_arms_error(arms: Seq<ArmSpec>, ident: Seq<char>, rec_id: int, n: nat, m: nat)
    requires
        n <= m <= arms.len(),
        arms_types(arms, ident, rec_id, n) is Err,
    ensures
        arms_types(arms, ident, rec_id, m) == arms_types(arms, ident, rec_id, n),
    decreases m,
{
    if n < m {
        lemma_arms_error(arms, ident, rec_id, n, (m - 1) as nat);
    }
}

/// An error among the first statements is the error of the whole block.
pub proof fn lemma_stmts_error(stmts: Seq<StmtSpec>, rec_id: int, n: nat, m: nat)
    requires
        n <= m <= stmts.len(),
        stmts_types(stmts, rec_id, n) is Err,
    ensures
        stmts_types(stmts, rec_id, m) == stmts_types(stmts, rec_id, n),
    decreases m,
{
    if n < m {
        lemma_stmts_error(stmts, rec_id, n, (m - 1) as nat);
    }
}

/// The local type of a sequence of actions: what they do one after the
/// other. It never fails.
pub fn sequence_session_types(actions: Vec<PartialLocalType>) -> (res: Result<PartialLocalType, String>)
    ensures
        type_view(res) == Ok::<PartialSpec, Seq<char>>(sequenced(partials_view(actions@), 0)),
{
    let ghost av = partials_view(actions@);
    let mut session_type = PartialLocalType::End;
    let mut k: usize = actions.len();
    while k > 0
        invariant
            k <= actions.len(),
            av == partials_view(actions@),
            session_type@ == sequenced(av, k as int),
        decreases k,
    {
        k -= 1;
        let rest = session_type;
        session_type =
        match &actions[k] {
            PartialLocalType::Send(label, cont) => PartialLocalType::Send(
                label.clone(),
                Box::new(cont.map_end_to(rest)),
            ),
            PartialLocalType::Receive(label, cont) => PartialLocalType::Receive(
                label.clone(),
                Box::new(cont.map_end_to(rest)),
            ),
            PartialLocalType::RecX(id, cont) => PartialLocalType::RecX(
                *id,
                Box::new(cont.map_break_to(PartialLocalType::End).map_end_to(rest)),
            ),
            PartialLocalType::InternalChoice(_) => actions[k].map_end_to(rest),
            PartialLocalType::ExternalChoice(_) => actions[k].map_end_to(rest),
            PartialLocalType::End => rest,
            PartialLocalType::X(id) => PartialLocalType::X(*id),
            PartialLocalType::Break => PartialLocalType::Break,
        };
    }
    Ok(session_type)
}

/// The local type, or `End` where there is none.
fn unwrap_or_end(t: Option<PartialLocalType>) -> (res: PartialLocalType)
    ensures
        res@ == or_end(opt_view(t)),
{
    match t {
        Some(x) => x,
        None => PartialLocalType::End,
    }
}

/// The id of a loop inside the loop `rec_id`.
fn next_id(rec_id: i32) -> (res: Result<i32, String>)
    ensures
        match res {
            Ok(id) => next_rec_id(rec_id as int) == Ok::<int, Seq<char>>(id as int),
            Err(msg) => next_rec_id(rec_id as int) == Err::<int, Seq<char>>(msg@),
        },
{
    if rec_id < i32::MAX {
        Ok(rec_id + 1)
    } else {
        Err(String::from_str("Loops are nested too deeply"))
    }
}

/// A loop around the body: the body, then back to the start, or out.
fn loop_around(body: &PartialLocalType, id: i32) -> (res: PartialLocalType)
    ensures
        res@ == loop_choice(body@, id as int),
{
    let mut choices: Vec<PartialLocalType> = Vec::new();
    choices.push(body.map_end_to(PartialLocalType::X(id)));
    choices.push(PartialLocalType::End);
    assert(partials_view(choices@) =~= seq![end_replaced(body@, PartialSpec::X(id as int)), PartialSpec::End]);
    PartialLocalType::InternalChoice(choices)
}

/// What a method call on the session does: see `session_call`.
fn session_call_type(method: &String, turbofish: &Option<Vec<GenericArgument>>, args: &Vec<Expr>) -> (res:
    Result<Option<PartialLocalType>, String>)
    ensures
        found_view(res) == session_call(method@, turbofish_view(*turbofish), exprs_view(args@)),
{
    proof {
        reveal_with_fuel(partial_view, 2);
    }
    if *method == String::from_str("send") {
        if args.len() == 0 {
            return Err(String::from_str("Invalid send call"));
        }
        match &args[0] {
            Expr::Struct { path, .. } => Ok(
                Some(PartialLocalType::Send(path.first.clone(), Box::new(PartialLocalType::End))),
            ),
            Expr::Path(path) => Ok(
                Some(PartialLocalType::Send(path.last.clone(), Box::new(PartialLocalType::End))),
            ),
            _ => Err(String::from_str("Invalid send call")),
        }
    } else if *method == String::from_str("receive") {
        match turbofish {
            Some(generics) => {
                if generics.len() == 0 {
                    return Err(String::from_str("Invalid receive call"));
                }
                match &generics[0] {
                    GenericArgument::Type(Type::Path(path)) => match &path.ident {
                        Some(name) => Ok(
                            Some(PartialLocalType::Receive(name.clone(), Box::new(PartialLocalType::End))),
                        ),
                        None => Err(String::from_str("Invalid receive call")),
                    },
                    _ => Err(String::from_str("Invalid receive call")),
                }
            },
            None => Err(String::from_str("Invalid receive call")),
        }
    } else if *method == String::from_str("branch") {
        Ok(None)
    } else {
        Err(String::from_str("Invalid method call"))
    }
}

/// Whether the expression is the session `ident`.
fn names_session(receiver: &Expr, ident: &String) -> (b: bool)
    ensures
        b == is_session(receiver@, ident@),
{
    match receiver {
        Expr::Path(path) => match &path.ident {
            Some(name) => *name == *ident,
            None => false,
        },
        _ => false,
    }
}

/// The local types of the expressions of a list: see `exprs_types`.
fn exprs_session_types(es: &Vec<Expr>, session_ident: &str, rec_id: i32, keep: bool) -> (res: Result<
    Vec<PartialLocalType>,
    String,
>)
    ensures
        types_view(res) == exprs_types(exprs_view(es@), session_ident@, rec_id as int, es.len() as nat, keep),
    decreases es,
{
    let mut out: Vec<PartialLocalType> = Vec::new();
    let mut i: usize = 0;
    assert(partials_view(out@) =~= Seq::empty());
    while i < es.len()
        invariant
            i <= es.len(),
            exprs_types(exprs_view(es@), session_ident@, rec_id as int, i as nat, keep) == Ok::<
                Seq<PartialSpec>,
                Seq<char>,
            >(partials_view(out@)),
        decreases es.len() - i,
    {
        let ghost before = partials_view(out@);
        match gen_session_type(&es[i], session_ident, rec_id) {
            Err(msg) => {
                proof {
                    lemma_exprs_error(
                        exprs_view(es@),
                        session_ident@,
                        rec_id as int,
                        (i + 1) as nat,
                        es.len() as nat,
                        keep,
                    );
                }
                return Err(msg);
            },
            Ok(Some(t)) => {
                out.push(t);
                assert(partials_view(out@) =~= before.push(t@));
            },
            Ok(None) => {
                if keep {
                    out.push(PartialLocalType::End);
                    assert(partials_view(out@) =~= before.push(PartialSpec::End));
                }
            },
        }
        i += 1;
    }
    Ok(out)
}

/// The alternatives that the arms of a match stand for: see
/// `arms_types`.
fn arms_session_types(arms: &Vec<Arm>, session_ident: &str, rec_id: i32) -> (res: Result<
    Vec<PartialLocalType>,
    String,
>)
    ensures
        types_view(res) == arms_types(arms_view(arms@), session_ident@, rec_id as int, arms.len() as nat),
    decreases arms,
{
    let mut out: Vec<PartialLocalType> = Vec::new();
    let mut i: usize = 0;
    assert(partials_view(out@) =~= Seq::empty());
    while i < arms.len()
        invariant
            i <= arms.len(),
            arms_types(arms_view(arms@), session_ident@, rec_id as int, i as nat) == Ok::<
                Seq<PartialSpec>,
                Seq<char>,
            >(partials_view(out@)),
        decreases arms.len() - i,
    {
        let ghost before = partials_view(out@);
        let label = match &arms[i].pat {
            Pat::TupleStruct(path) => path.last.clone(),
            Pat::Path(path) => path.last.clone(),
            Pat::Other => {
                proof {
                    lemma_arms_error(
                        arms_view(arms@),
                        session_ident@,
                        rec_id as int,
                        (i + 1) as nat,
                        arms.len() as nat,
                    );
                }
                return Err(String::from_str("Invalid match arm"));
            },
        };
        match gen_session_type(&arms[i].body, session_ident, rec_id) {
            Err(msg) => {
                proof {
                    lemma_arms_error(
                        arms_view(arms@),
                        session_ident@,
                        rec_id as int,
                        (i + 1) as nat,
                        arms.len() as nat,
                    );
                }
                return Err(msg);
            },
            Ok(t) => {
                let cont = unwrap_or_end(t);
                let ghost c = cont@;
                out.push(PartialLocalType::Receive(label, Box::new(cont)));
                assert(partials_view(out@) =~= before.push(PartialSpec::Receive(label@, Box::new(c))));
            },
        }
        i += 1;
    }
    Ok(out)
}

/// The local type of a block: what its statements do on the session `s`,
/// one after the other. `rec_id` is the id of the loop around the block.
pub fn infer_block_session_type(item: &Block, rec_id: i32) -> (res: Result<PartialLocalType, String>)
    ensures
        type_view(res) == block_type(item@, rec_id as int),
    decreases item, 1nat,
{
    let session_var = "s";
    let mut actions: Vec<PartialLocalType> = Vec::new();
    let mut i: usize = 0;
    assert(partials_view(actions@) =~= Seq::empty());
    while i < item.stmts.len()
        invariant
            i <= item.stmts.len(),
            session_var@ == session_name(),
            stmts_types(stmts_view(item.stmts@), rec_id as int, i as nat) == Ok::<
                Seq<PartialSpec>,
                Seq<char>,
            >(partials_view(actions@)),
        decreases item.stmts.len() - i,
    {
        let ghost before = partials_view(actions@);
        match &item.stmts[i] {
            Stmt::Expr(expr) => {
                match gen_session_type(expr, session_var, rec_id) {
                    Err(msg) => {
                        proof {
                            lemma_stmts_error(
                                stmts_view(item.stmts@),
                                rec_id as int,
                                (i + 1) as nat,
                                item.stmts.len() as nat,
                            );
                        }
                        return Err(msg);
                    },
                    Ok(Some(action)) => {
                        actions.push(action);
                        assert(partials_view(actions@) =~= before.push(action@));
                    },
                    Ok(None) => {},
                }
            },
            Stmt::Other => {},
        }
        i += 1;
    }
    sequence_session_types(actions)
}

/// The local type of an expression, `None` where the expression does
/// nothing on the session `session_ident`: see `expr_type`.
pub fn gen_session_type(expr: &Expr, session_ident: &str, rec_id: i32) -> (res: Result<
    Option<PartialLocalType>,
    String,
>)
    ensures
        found_view(res) == expr_type(expr@, session_ident@, rec_id as int),
    decreases expr, 0nat,
{
    match expr {
        Expr::Call { func, args } => {
            let arg_psts = match exprs_session_types(args, session_ident, rec_id, false) {
                Ok(types) => types,
                Err(msg) => {
                    return Err(msg);
                },
            };
            let arg_combined_pst = match sequence_session_types(arg_psts) {
                Ok(t) => t,
                Err(msg) => {
                    return Err(msg);
                },
            };
            let call_pst = match gen_session_type(func, session_ident, rec_id) {
                Ok(t) => unwrap_or_end(t),
                Err(msg) => {
                    return Err(msg);
                },
            };
            Ok(Some(call_pst.map_end_to(arg_combined_pst)))
        },
        Expr::MethodCall { receiver, method, turbofish, args } => {
            let arg_psts = match exprs_session_types(args, session_ident, rec_id, false) {
                Ok(types) => types,
                Err(msg) => {
                    return Err(msg);
                },
            };
            let arg_combined_pst = match sequence_session_types(arg_psts) {
                Ok(t) => t,
                Err(msg) => {
                    return Err(msg);
                },
            };
            let ident = String::from_str(session_ident);
            if names_session(receiver, &ident) {
                session_call_type(method, turbofish, args)
            } else {
                Ok(Some(arg_combined_pst.map_end_to(PartialLocalType::End)))
            }
        },
        Expr::While { cond, body } => {
            let new_rec_id = match next_id(rec_id) {
                Ok(id) => id,
                Err(msg) => {
                    return Err(msg);
                },
            };
            let cond_type = match gen_session_type(cond, session_ident, new_rec_id) {
                Ok(t) => t,
                Err(msg) => {
                    return Err(msg);
                },
            };
            let body_type = match infer_block_session_type(body, new_rec_id) {
                Ok(t) => t,
                Err(msg) => {
                    return Err(msg);
                },
            };
            let block_type_with_choice = loop_around(&body_type, new_rec_id);
            let block_with_cond = match cond_type {
                Some(cond_type) => cond_type.map_end_to(block_type_with_choice),
                None => block_type_with_choice,
            };
            Ok(Some(PartialLocalType::RecX(new_rec_id, Box::new(block_with_cond))))
        },
        Expr::ForLoop { expr: iterated, body } => {
            let new_rec_id = match next_id(rec_id) {
                Ok(id) => id,
                Err(msg) => {
                    return Err(msg);
                },
            };
            let pat_type = match gen_session_type(iterated, session_ident, new_rec_id) {
                Ok(t) => unwrap_or_end(t),
                Err(msg) => {
                    return Err(msg);
                },
            };
            let body_type = match infer_block_session_type(body, new_rec_id) {
                Ok(t) => t,
                Err(msg) => {
                    return Err(msg);
                },
            };
            let block_type_with_choice = PartialLocalType::RecX(
                new_rec_id,
                Box::new(loop_around(&body_type, new_rec_id)),
            );
            Ok(Some(pat_type.map_end_to(block_type_with_choice)))
        },
        Expr::Match { expr: matched, arms } => {
            let expr_type = match gen_session_type(matched, session_ident, rec_id) {
                Ok(t) => unwrap_or_end(t),
                Err(msg) => {
                    return Err(msg);
                },
            };
            let session_choices = match arms_session_types(arms, session_ident, rec_id) {
                Ok(choices) => choices,
                Err(msg) => {
                    return Err(msg);
                },
            };
            Ok(Some(expr_type.map_end_to(PartialLocalType::ExternalChoice(session_choices))))
        },
        Expr::If { cond, then_branch, else_branch } => {
            let cond_type = match gen_session_type(cond, session_ident, rec_id) {
                Ok(t) => t,
                Err(msg) => {
                    return Err(msg);
                },
            };
            let then_type = match infer_block_session_type(then_branch, rec_id) {
                Ok(t) => t,
                Err(msg) => {
                    return Err(msg);
                },
            };
            let else_type = match else_branch {
                Some(else_block) => match gen_session_type(else_block, session_ident, rec_id) {
                    Ok(t) => unwrap_or_end(t),
                    Err(msg) => {
                        return Err(msg);
                    },
                },
                None => PartialLocalType::End,
            };
            let ghost then_view = then_type@;
            let ghost else_view = else_type@;
            let mut choices: Vec<PartialLocalType> = Vec::new();
            choices.push(then_type);
            choices.push(else_type);
            assert(partials_view(choices@) =~= seq![then_view, else_view]);
            let if_type_with_choice = PartialLocalType::InternalChoice(choices);
            let if_type_with_cond = match cond_type {
                Some(cond_type) => cond_type.map_end_to(if_type_with_choice),
                None => if_type_with_choice,
            };
            Ok(Some(if_type_with_cond))
        },
        Expr::Break => Ok(Some(PartialLocalType::Break)),
        Expr::Loop { body } => {
            let new_rec_id = match next_id(rec_id) {
                Ok(id) => id,
                Err(msg) => {
                    return Err(msg);
                },
            };
            let body_type = match infer_block_session_type(body, new_rec_id) {
                Ok(t) => t,
                Err(msg) => {
                    return Err(msg);
                },
            };
            let body_type_with_x = body_type.map_end_to(PartialLocalType::X(new_rec_id));
            Ok(Some(PartialLocalType::RecX(new_rec_id, Box::new(body_type_with_x))))
        },
        Expr::Let { expr: bound } => {
            match gen_session_type(bound, session_ident, rec_id) {
                Ok(t) => Ok(Some(unwrap_or_end(t))),
                Err(msg) => Err(msg),
            }
        },
        Expr::Assign { right } => {
            match gen_session_type(right, session_ident, rec_id) {
                Ok(t) => Ok(Some(unwrap_or_end(t))),
                Err(msg) => Err(msg),
            }
        },
        Expr::Struct { path: _, fields } => {
            let field_types = match exprs_session_types(fields, session_ident, rec_id, true) {
                Ok(types) => types,
                Err(msg) => {
                    return Err(msg);
                },
            };
            match sequence_session_types(field_types) {
                Ok(t) => Ok(Some(t)),
                Err(msg) => Err(msg),
            }
        },
        Expr::Binary { left, right } => {
            let lhs_type = match gen_session_type(left, session_ident, rec_id) {
                Ok(t) => unwrap_or_end(t),
                Err(msg) => {
                    return Err(msg);
                },
            };
            let rhs_type = match gen_session_type(right, session_ident, rec_id) {
                Ok(t) => unwrap_or_end(t),
                Err(msg) => {
                    return Err(msg);
                },
            };
            sequence_pair(lhs_type, rhs_type)
        },
        Expr::Unary { expr: operand } => {
            match gen_session_type(operand, session_ident, rec_id) {
                Ok(t) => Ok(Some(unwrap_or_end(t))),
                Err(msg) => Err(msg),
            }
        },
        Expr::Range { start, end } => {
            let lhs_type = match start {
                Some(from) => match gen_session_type(from, session_ident, rec_id) {
                    Ok(t) => unwrap_or_end(t),
                    Err(msg) => {
                        return Err(msg);
                    },
                },
                None => PartialLocalType::End,
            };
            let rhs_type = match end {
                Some(to) => match gen_session_type(to, session_ident, rec_id) {
                    Ok(t) => unwrap_or_end(t),
                    Err(msg) => {
                        return Err(msg);
                    },
                },
                None => PartialLocalType::End,
            };
            sequence_pair(lhs_type, rhs_type)
        },
        Expr::Lit => Ok(None),
        Expr::Path(_) => Ok(None),
        Expr::Block(block) => {
            match infer_block_session_type(block, rec_id) {
                Ok(t) => Ok(Some(t)),
                Err(msg) => Err(msg),
            }
        },
        Expr::Group(inner) => gen_session_type(inner, session_ident, rec_id),
        Expr::Paren(inner) => gen_session_type(inner, session_ident, rec_id),
        Expr::Other { source, tokens } => {
            let mut msg = String::from_str("Unsupported Rust construct: ");
            match source {
                Some(text) => {
                    msg.append(text.as_str());
                },
                None => {
                    msg.append("ERROR printing expr");
                },
            }
            msg.append(", of type ");
            msg.append(tokens.as_str());
            Err(msg)
        },
    }
}

/// What the two actions do one after the other.
fn sequence_pair(first: PartialLocalType, second: PartialLocalType) -> (res: Result<
    Option<PartialLocalType>,
    String,
>)
    ensures
        found_view(res) == Ok::<Option<PartialSpec>, Seq<char>>(
            Some(sequenced(seq![first@, second@], 0)),
        ),
{
    let ghost a = first@;
    let ghost b = second@;
    let mut both: Vec<PartialLocalType> = Vec::new();
    both.push(first);
    both.push(second);
    assert(partials_view(both@) =~= seq![a, b]);
    match sequence_session_types(both) {
        Ok(t) => Ok(Some(t)),
        Err(msg) => Err(msg),
    }
}

/// The type of the parameter named `session`, where that type is one
/// plain name.
pub fn get_session_arg(args: &Vec<FnArg>) -> (res: Option<String>)
    ensures
        match res {
            Some(name) => exists|i: int|
                0 <= i < args.len() && names_session_type(#[trigger] fn_args_view(args@)[i]) == Some(
                    name@,
                ) && forall|j: int|
                    0 <= j < i ==> names_session_type(#[trigger] fn_args_view(args@)[j]) is None,
            None => forall|i: int|
                0 <= i < args.len() ==> names_session_type(#[trigger] fn_args_view(args@)[i]) is None,
        },
{
    let mut i: usize = 0;
    while i < args.len()
        invariant
            i <= args.len(),
            forall|j: int| 0 <= j < i ==> names_session_type(#[trigger] fn_args_view(args@)[j]) is None,
        decreases args.len() - i,
    {
        match &args[i] {
            FnArg::Typed { name: Some(name), ty: Type::Path(path) } => {
                if *name == String::from_str("session") {
                    match &path.ident {
                        Some(ident) => {
                            assert(names_session_type(fn_args_view(args@)[i as int]) == Some(ident@));
                            return Some(ident.clone());
                        },
                        None => {},
                    }
                }
            },
            _ => {},
        }
        i += 1;
    }
    None
}

/// The type of the parameter, where the parameter is named `session` and
/// its type is one plain name.
pub open spec fn names_session_type(arg: FnArgSpec) -> Option<Seq<char>> {
    match arg {
        FnArgSpec::Typed { name: Some(name), ty: TypeSpec::Path(path) } => if name == "session"@ {
            path.ident
        } else {
            None
        },
        _ => None,
    }
}

} // verus!
