//! Rust expressions that build a session type again, for code that is
//! generated beside a function.

use crate::ilt::{local_types_view, LocalType, PartialSpec};
use crate::session_type::{conts_view, opt_int, Label, LocalSpec, MPSTLocalType, Participant, Role};
use vstd::prelude::*;
use vstd::string::StringExecFns;

verus! {

/// The mathematical value of a generated expression.
pub ghost enum CodeSpec {
    Path(Seq<char>),
    Call(Seq<char>, Seq<CodeSpec>),
    Struct(Seq<char>, Seq<(Seq<char>, CodeSpec)>),
    VecOf(Seq<CodeSpec>),
    Tuple(Seq<CodeSpec>),
    Str(Seq<char>),
    Int(int),
    Bool(bool),
}

/// An expression of generated code.
#[derive(Debug)]
pub enum Code {
    /// A path such as `None`.
    Path(String),
    /// A call of the function or constructor at a path.
    Call(String, Vec<Code>),
    /// A struct expression: the path and the fields with their values.
    Struct(String, Vec<(String, Code)>),
    /// `vec![..]` of the elements.
    VecOf(Vec<Code>),
    /// A tuple of the elements.
    Tuple(Vec<Code>),
    /// A string literal with the given contents.
    Str(String),
    /// An `i32` literal.
    Int(i32),
    /// `true` or `false`.
    Bool(bool),
}

/// The mathematical value of a generated expression.
pub open spec fn code_view(c: Code) -> CodeSpec
    decreases c,
{
    match c {
        Code::Path(p) => CodeSpec::Path(p@),
        Code::Call(p, args) => CodeSpec::Call(p@, codes_view(args@)),
        Code::Struct(p, fields) => CodeSpec::Struct(p@, fields_view(fields@)),
        Code::VecOf(items) => CodeSpec::VecOf(codes_view(items@)),
        Code::Tuple(items) => CodeSpec::Tuple(codes_view(items@)),
        Code::Str(s) => CodeSpec::Str(s@),
        Code::Int(v) => CodeSpec::Int(v as int),
        Code::Bool(b) => CodeSpec::Bool(b),
    }
}

/// The mathematical values of a list of generated expressions.
pub open spec fn codes_view(cs: Seq<Code>) -> Seq<CodeSpec>
    decreases cs,
{
    Seq::new(
        cs.len(),
        |i: int|
            if 0 <= i < cs.len() {
                code_view(cs[i])
            } else {
                CodeSpec::Bool(false)
            },
    )
}

/// The mathematical values of the fields of a generated struct
/// expression.
pub open spec fn fields_view(fs: Seq<(String, Code)>) -> Seq<(Seq<char>, CodeSpec)>
    decreases fs,
{
    Seq::new(
        fs.len(),
        |i: int|
            if 0 <= i < fs.len() {
                (fs[i].0@, code_view(fs[i].1))
            } else {
                (Seq::empty(), CodeSpec::Bool(false))
            },
    )
}

impl View for Code {
    type V = CodeSpec;

    open spec fn view(&self) -> CodeSpec {
        code_view(*self)
    }
}

/// `Some(..)` around the integer, or `None`.
pub open spec fn option_code(v: Option<int>) -> CodeSpec {
    match v {
        Some(x) => CodeSpec::Call("Some"@, seq![CodeSpec::Int(x)]),
        None => CodeSpec::Path("None"@),
    }
}

/// `String::from(..)` of the text.
pub open spec fn string_code(text: Seq<char>) -> CodeSpec {
    CodeSpec::Call("String::from"@, seq![CodeSpec::Str(text)])
}

/// The expression that builds the participant.
pub open spec fn participant_code(r: Role) -> CodeSpec {
    CodeSpec::Call(
        "::inference::session_type::Participant::new"@,
        seq![
            match r {
                Some(name) => CodeSpec::Call("Some"@, seq![string_code(name)]),
                None => CodeSpec::Path("None"@),
            },
        ],
    )
}

/// The expression that builds the session type.
pub open spec fn session_code(t: LocalSpec) -> CodeSpec
    decreases t,
{
    match t {
        LocalSpec::Select(p, conts) => CodeSpec::Call(
            "::inference::session_type::MPSTLocalType::Select"@,
            seq![participant_code(p), CodeSpec::VecOf(session_conts_code(conts))],
        ),
        LocalSpec::Branch(p, conts) => CodeSpec::Call(
            "::inference::session_type::MPSTLocalType::Branch"@,
            seq![participant_code(p), CodeSpec::VecOf(session_conts_code(conts))],
        ),
        LocalSpec::RecX { cont, id, min_depth, max_depth } => CodeSpec::Struct(
            "::inference::session_type::MPSTLocalType::RecX"@,
            seq![
                ("cont"@, CodeSpec::Call("Box::new"@, seq![session_code(*cont)])),
                ("id"@, CodeSpec::Int(id)),
                ("min_depth"@, option_code(min_depth)),
                ("max_depth"@, option_code(max_depth)),
            ],
        ),
        LocalSpec::X(id, mapped) => CodeSpec::Call(
            "::inference::session_type::MPSTLocalType::X"@,
            seq![option_code(id), CodeSpec::Bool(mapped)],
        ),
        LocalSpec::End => CodeSpec::Path("::inference::session_type::MPSTLocalType::End"@),
    }
}

/// The expressions that build the labelled continuations: each a pair of
/// the label and the continuation.
pub open spec fn session_conts_code(conts: Seq<(Label, LocalSpec)>) -> Seq<CodeSpec>
    decreases conts,
{
    Seq::new(
        conts.len(),
        |i: int|
            if 0 <= i < conts.len() {
                CodeSpec::Tuple(seq![string_code(conts[i].0), session_code(conts[i].1)])
            } else {
                CodeSpec::Bool(false)
            },
    )
}

/// The expression that builds the local type that was read off a
/// program.
pub open spec fn inferred_code(t: PartialSpec) -> CodeSpec
    decreases t,
{
    match t {
        PartialSpec::Send(label, cont) => CodeSpec::Call(
            "::inference::ilt::LocalType::Send"@,
            seq![string_code(label), CodeSpec::Call("Box::new"@, seq![inferred_code(*cont)])],
        ),
        PartialSpec::Receive(label, cont) => CodeSpec::Call(
            "::inference::ilt::LocalType::Receive"@,
            seq![string_code(label), CodeSpec::Call("Box::new"@, seq![inferred_code(*cont)])],
        ),
        PartialSpec::InternalChoice(choices) => CodeSpec::Call(
            "::inference::ilt::LocalType::InternalChoice"@,
            seq![CodeSpec::VecOf(inferred_list_code(choices))],
        ),
        PartialSpec::ExternalChoice(choices) => CodeSpec::Call(
            "::inference::ilt::LocalType::ExternalChoice"@,
            seq![CodeSpec::VecOf(inferred_list_code(choices))],
        ),
        PartialSpec::RecX(id, cont) => CodeSpec::Call(
            "::inference::ilt::LocalType::RecX"@,
            seq![CodeSpec::Int(id), CodeSpec::Call("Box::new"@, seq![inferred_code(*cont)])],
        ),
        PartialSpec::X(id) => CodeSpec::Call("::inference::ilt::LocalType::X"@, seq![CodeSpec::Int(id)]),
        PartialSpec::End => CodeSpec::Path("::inference::ilt::LocalType::End"@),
        PartialSpec::Break => CodeSpec::Path("::inference::ilt::PartialLocalType::Break"@),
    }
}

/// `inferred_code` on each type of a list.
pub open spec fn inferred_list_code(choices: Seq<PartialSpec>) -> Seq<CodeSpec>
    decreases choices,
{
    Seq::new(
        choices.len(),
        |i: int|
            if 0 <= i < choices.len() {
                inferred_code(choices[i])
            } else {
                CodeSpec::Bool(false)
            },
    )
}

/// A list of one expression.
fn one(a: Code) -> (v: Vec<Code>)
    ensures
        codes_view(v@) == seq![a@],
{
    let mut v: Vec<Code> = Vec::new();
    v.push(a);
    v
}

/// A list of two expressions.
fn two(a: Code, b: Code) -> (v: Vec<Code>)
    ensures
        codes_view(v@) == seq![a@, b@],
{
    let mut v: Vec<Code> = Vec::new();
    v.push(a);
    v.push(b);
    v
}

/// `Box::new(..)` around the expression.
fn boxed(a: Code) -> (c: Code)
    ensures
        c@ == CodeSpec::Call("Box::new"@, seq![a@]),
{
    Code::Call(String::from_str("Box::new"), one(a))
}

/// `String::from(..)` of the text.
fn string_from(text: &String) -> (c: Code)
    ensures
        c@ == string_code(text@),
{
    Code::Call(String::from_str("String::from"), one(Code::Str(text.clone())))
}

/// The expression for an optional integer: `Some(..)` around it, or
/// `None`.
pub fn option_to_ast(opt: &Option<i32>) -> (c: Code)
    ensures
        c@ == option_code(opt_int(*opt)),
{
    match opt {
        Some(val) => Code::Call(String::from_str("Some"), one(Code::Int(*val))),
        None => Code::Path(String::from_str("None")),
    }
}

/// The expression that builds the participant.
fn participant_to_ast(p: &Participant) -> (c: Code)
    ensures
        c@ == participant_code(p@),
{
    let role = match p.role() {
        Some(name) => Code::Call(String::from_str("Some"), one(string_from(name))),
        None => Code::Path(String::from_str("None")),
    };
    Code::Call(String::from_str("::inference::session_type::Participant::new"), one(role))
}

impl MPSTLocalType {
    /// The expressions that build the labelled continuations.
    fn conts_to_syn_ast(conts: &Vec<(String, MPSTLocalType)>) -> (out: Vec<Code>)
        ensures
            codes_view(out@) == session_conts_code(conts_view(conts@)),
        decreases conts,
    {
        let mut out: Vec<Code> = Vec::new();
        let mut i: usize = 0;
        while i < conts.len()
            invariant
                i <= conts.len(),
                out.len() == i,
                forall|j: int|
                    0 <= j < i ==> (#[trigger] out@[j])@ == CodeSpec::Tuple(
                        seq![string_code(conts@[j].0@), session_code(conts@[j].1@)],
                    ),
            decreases conts.len() - i,
        {
            let ty = conts[i].1.to_syn_ast();
            out.push(Code::Tuple(two(string_from(&conts[i].0), ty)));
            i += 1;
        }
        out
    }

    /// The expression that builds this session type.
    pub fn to_syn_ast(&self) -> (c: Code)
        ensures
            c@ == session_code(self@),
        decreases self,
    {
        match self {
            MPSTLocalType::Select(participant, choices) => {
                let syn_choices = MPSTLocalType::conts_to_syn_ast(choices);
                Code::Call(
                    String::from_str("::inference::session_type::MPSTLocalType::Select"),
                    two(participant_to_ast(participant), Code::VecOf(syn_choices)),
                )
            },
            MPSTLocalType::Branch(participant, choices) => {
                let syn_choices = MPSTLocalType::conts_to_syn_ast(choices);
                Code::Call(
                    String::from_str("::inference::session_type::MPSTLocalType::Branch"),
                    two(participant_to_ast(participant), Code::VecOf(syn_choices)),
                )
            },
            MPSTLocalType::RecX { cont, id, min_depth, max_depth } => {
                let ty = cont.to_syn_ast();
                let ghost inner = ty@;
                let mut fields: Vec<(String, Code)> = Vec::new();
                fields.push((String::from_str("cont"), boxed(ty)));
                fields.push((String::from_str("id"), Code::Int(*id)));
                fields.push((String::from_str("min_depth"), option_to_ast(min_depth)));
                fields.push((String::from_str("max_depth"), option_to_ast(max_depth)));
                assert(fields_view(fields@) =~= seq![
                    ("cont"@, CodeSpec::Call("Box::new"@, seq![inner])),
                    ("id"@, CodeSpec::Int(*id as int)),
                    ("min_depth"@, option_code(opt_int(*min_depth))),
                    ("max_depth"@, option_code(opt_int(*max_depth))),
                ]);
                Code::Struct(String::from_str("::inference::session_type::MPSTLocalType::RecX"), fields)
            },
            MPSTLocalType::X(depth, mapped) => Code::Call(
                String::from_str("::inference::session_type::MPSTLocalType::X"),
                two(option_to_ast(depth), Code::Bool(*mapped)),
            ),
            MPSTLocalType::End => Code::Path(
                String::from_str("::inference::session_type::MPSTLocalType::End"),
            ),
        }
    }
}

impl LocalType {
    /// The expressions that build the types of a list.
    fn list_to_syn_ast(choices: &Vec<LocalType>) -> (out: Vec<Code>)
        ensures
            codes_view(out@) == inferred_list_code(local_types_view(choices@)),
        decreases choices,
    {
        let mut out: Vec<Code> = Vec::new();
        let mut i: usize = 0;
        while i < choices.len()
            invariant
                i <= choices.len(),
                out.len() == i,
                forall|j: int| 0 <= j < i ==> (#[trigger] out@[j])@ == inferred_code(choices@[j]@),
            decreases choices.len() - i,
        {
            out.push(choices[i].to_syn_ast());
            i += 1;
        }
        out
    }

    /// The expression that builds this local type.
    pub fn to_syn_ast(&self) -> (c: Code)
        ensures
            c@ == inferred_code(self@),
        decreases self,
    {
        match self {
            LocalType::Send(label, ty) => Code::Call(
                String::from_str("::inference::ilt::LocalType::Send"),
                two(string_from(label), boxed(ty.to_syn_ast())),
            ),
            LocalType::Receive(label, ty) => Code::Call(
                String::from_str("::inference::ilt::LocalType::Receive"),
                two(string_from(label), boxed(ty.to_syn_ast())),
            ),
            LocalType::InternalChoice(choices) => Code::Call(
                String::from_str("::inference::ilt::LocalType::InternalChoice"),
                one(Code::VecOf(LocalType::list_to_syn_ast(choices))),
            ),
            LocalType::ExternalChoice(choices) => Code::Call(
                String::from_str("::inference::ilt::LocalType::ExternalChoice"),
                one(Code::VecOf(LocalType::list_to_syn_ast(choices))),
            ),
            LocalType::RecX(id, ty) => Code::Call(
                String::from_str("::inference::ilt::LocalType::RecX"),
                two(Code::Int(*id), boxed(ty.to_syn_ast())),
            ),
            LocalType::X(id) => Code::Call(
                String::from_str("::inference::ilt::LocalType::X"),
                one(Code::Int(*id)),
            ),
            LocalType::End => Code::Path(String::from_str("::inference::ilt::LocalType::End")),
        }
    }
}

} // verus!
