use inference::codegen::{option_to_ast, Code};
use inference::ilt::{LocalType, PartialLocalType};
use inference::macros::infer_session_type;
use inference::parse::{
    gen_session_type, get_session_arg, infer_block_session_type, sequence_session_types,
};
use inference::session_type::{MPSTLocalType, Participant};
use inference::syntax::{Arm, Block, Expr, FnArg, GenericArgument, Pat, Path, Stmt, Type};

fn io_name(name: &str) -> Path {
    Path { first: String::from(name), last: String::from(name), ident: Some(String::from(name)) }
}

fn io_long(first: &str, last: &str) -> Path {
    Path { first: String::from(first), last: String::from(last), ident: None }
}

fn io_var(name: &str) -> Box<Expr> {
    Box::new(Expr::Path(io_name(name)))
}

fn io_call(receiver: &str, method: &str, generics: Option<Vec<GenericArgument>>, args: Vec<Expr>) -> Expr {
    Expr::MethodCall {
        receiver: io_var(receiver),
        method: String::from(method),
        turbofish: generics,
        args,
    }
}

fn io_send(label: &str) -> Expr {
    io_call("s", "send", None, vec![Expr::Path(io_name(label))])
}

fn io_receive(label: &str) -> Expr {
    io_call("s", "receive", Some(vec![GenericArgument::Type(Type::Path(io_name(label)))]), vec![])
}

fn io_block(exprs: Vec<Expr>) -> Block {
    Block { stmts: exprs.into_iter().map(Stmt::Expr).collect() }
}

fn io_s(label: &str, cont: PartialLocalType) -> PartialLocalType {
    PartialLocalType::Send(String::from(label), Box::new(cont))
}

fn io_r(label: &str, cont: PartialLocalType) -> PartialLocalType {
    PartialLocalType::Receive(String::from(label), Box::new(cont))
}

fn io_end() -> PartialLocalType {
    PartialLocalType::End
}

fn io_type(e: Expr) -> Result<Option<PartialLocalType>, String> {
    gen_session_type(&e, "s", 0)
}

fn io_err<T>(msg: &str) -> Result<T, String> {
    Err(String::from(msg))
}

#[test]
fn sends_and_receives_on_the_session() {
    assert_eq!(io_type(io_send("Hello")), Ok(Some(io_s("Hello", io_end()))));
    assert_eq!(io_type(io_receive("Bye")), Ok(Some(io_r("Bye", io_end()))));
    // the label of a variant is its last segment, that of a struct its first
    assert_eq!(
        io_type(io_call("s", "send", None, vec![Expr::Path(io_long("Choice", "Left"))])),
        Ok(Some(io_s("Left", io_end())))
    );
    assert_eq!(
        io_type(io_call(
            "s",
            "send",
            None,
            vec![Expr::Struct { path: io_long("Order", "Nested"), fields: vec![Expr::Lit] }]
        )),
        Ok(Some(io_s("Order", io_end())))
    );
    assert_eq!(
        io_type(io_call("s", "branch", Some(vec![GenericArgument::Type(Type::Path(io_name("C")))]), vec![])),
        Ok(None)
    );
    // another session name
    assert_eq!(gen_session_type(&io_send("Hello"), "session", 0), Ok(Some(io_end())));
    assert_eq!(
        gen_session_type(&io_call("session", "send", None, vec![Expr::Path(io_name("Hello"))]), "session", 0),
        Ok(Some(io_s("Hello", io_end())))
    );
}

#[test]
fn calls_that_are_not_understood() {
    assert_eq!(io_type(io_call("s", "send", None, vec![])), io_err("Invalid send call"));
    assert_eq!(io_type(io_call("s", "send", None, vec![Expr::Lit])), io_err("Invalid send call"));
    assert_eq!(io_type(io_call("s", "receive", None, vec![])), io_err("Invalid receive call"));
    assert_eq!(io_type(io_call("s", "receive", Some(vec![]), vec![])), io_err("Invalid receive call"));
    assert_eq!(
        io_type(io_call("s", "receive", Some(vec![GenericArgument::Other]), vec![])),
        io_err("Invalid receive call")
    );
    assert_eq!(
        io_type(io_call("s", "receive", Some(vec![GenericArgument::Type(Type::Other)]), vec![])),
        io_err("Invalid receive call")
    );
    assert_eq!(
        io_type(io_call(
            "s",
            "receive",
            Some(vec![GenericArgument::Type(Type::Path(io_long("a", "B")))]),
            vec![]
        )),
        io_err("Invalid receive call")
    );
    assert_eq!(io_type(io_call("s", "close", None, vec![])), io_err("Invalid method call"));
    assert_eq!(
        io_type(Expr::Other { source: Some(String::from("quote.0")), tokens: String::from("TokenStream [..]") }),
        io_err("Unsupported Rust construct: quote.0, of type TokenStream [..]")
    );
    assert_eq!(
        io_type(Expr::Other { source: None, tokens: String::from("T") }),
        io_err("Unsupported Rust construct: ERROR printing expr, of type T")
    );
    // an argument that is not understood fails the call, whoever is called
    assert_eq!(
        io_type(io_call("s", "send", None, vec![Expr::Path(io_name("Hello")), io_call("s", "close", None, vec![])])),
        io_err("Invalid method call")
    );
    assert_eq!(
        io_type(Expr::Match {
            expr: io_var("x"),
            arms: vec![Arm { pat: Pat::Other, body: Expr::Lit }]
        }),
        io_err("Invalid match arm")
    );
    assert_eq!(
        gen_session_type(&Expr::Loop { body: io_block(vec![]) }, "s", i32::MAX),
        io_err("Loops are nested too deeply")
    );
    assert_eq!(
        gen_session_type(&Expr::Loop { body: io_block(vec![]) }, "s", i32::MAX - 1),
        Ok(Some(PartialLocalType::RecX(i32::MAX, Box::new(PartialLocalType::X(i32::MAX)))))
    );
}

#[test]
fn calls_on_other_receivers() {
    assert_eq!(io_type(io_call("other", "send", None, vec![Expr::Lit])), Ok(Some(io_end())));
    // what the arguments do on the session, in their order
    assert_eq!(
        io_type(io_call("other", "put", None, vec![io_send("a"), Expr::Lit, io_receive("b")])),
        Ok(Some(io_s("a", io_r("b", io_end()))))
    );
    // a function call: the callee first, then the arguments
    assert_eq!(
        io_type(Expr::Call {
            func: Box::new(Expr::Paren(Box::new(Expr::Block(io_block(vec![io_send("f")]))))),
            args: vec![io_receive("a"), io_receive("b")]
        }),
        Ok(Some(io_s("f", io_r("a", io_r("b", io_end())))))
    );
    assert_eq!(
        io_type(Expr::Call { func: io_var("f"), args: vec![] }),
        Ok(Some(io_end()))
    );
}

#[test]
fn expressions_that_pass_their_parts_on() {
    assert_eq!(io_type(Expr::Lit), Ok(None));
    assert_eq!(io_type(Expr::Path(io_name("x"))), Ok(None));
    assert_eq!(io_type(Expr::Break), Ok(Some(PartialLocalType::Break)));
    assert_eq!(io_type(Expr::Group(Box::new(Expr::Lit))), Ok(None));
    assert_eq!(io_type(Expr::Paren(Box::new(io_send("a")))), Ok(Some(io_s("a", io_end()))));
    assert_eq!(io_type(Expr::Let { expr: Box::new(Expr::Lit) }), Ok(Some(io_end())));
    assert_eq!(io_type(Expr::Let { expr: Box::new(io_receive("a")) }), Ok(Some(io_r("a", io_end()))));
    assert_eq!(io_type(Expr::Assign { right: Box::new(io_receive("a")) }), Ok(Some(io_r("a", io_end()))));
    assert_eq!(io_type(Expr::Unary { expr: Box::new(io_receive("a")) }), Ok(Some(io_r("a", io_end()))));
    assert_eq!(
        io_type(Expr::Binary { left: Box::new(io_receive("a")), right: Box::new(io_send("b")) }),
        Ok(Some(io_r("a", io_s("b", io_end()))))
    );
    assert_eq!(
        io_type(Expr::Range { start: None, end: Some(Box::new(io_send("b"))) }),
        Ok(Some(io_s("b", io_end())))
    );
    assert_eq!(io_type(Expr::Range { start: None, end: None }), Ok(Some(io_end())));
    assert_eq!(
        io_type(Expr::Struct { path: io_name("P"), fields: vec![io_send("a"), Expr::Lit, io_send("b")] }),
        Ok(Some(io_s("a", io_s("b", io_end()))))
    );
    assert_eq!(
        io_type(Expr::Block(io_block(vec![io_send("a"), Expr::Lit, io_send("b")]))),
        Ok(Some(io_s("a", io_s("b", io_end()))))
    );
}

#[test]
fn conditionals_and_matches() {
    let choice = PartialLocalType::InternalChoice(vec![io_s("a", io_end()), io_end()]);
    assert_eq!(
        io_type(Expr::If {
            cond: Box::new(Expr::Lit),
            then_branch: io_block(vec![io_send("a")]),
            else_branch: None
        }),
        Ok(Some(choice.clone()))
    );
    // what the condition does comes first
    assert_eq!(
        io_type(Expr::If {
            cond: Box::new(io_receive("c")),
            then_branch: io_block(vec![io_send("a")]),
            else_branch: Some(Box::new(Expr::Lit))
        }),
        Ok(Some(io_r("c", choice)))
    );
    assert_eq!(
        io_type(Expr::Match {
            expr: Box::new(io_receive("head")),
            arms: vec![
                Arm { pat: Pat::Path(io_long("C", "Left")), body: io_send("l") },
                Arm { pat: Pat::TupleStruct(io_long("C", "Right")), body: Expr::Lit },
            ]
        }),
        Ok(Some(io_r(
            "head",
            PartialLocalType::ExternalChoice(vec![
                io_r("Left", io_s("l", io_end())),
                io_r("Right", io_end()),
            ])
        )))
    );
}

#[test]
fn loops() {
    assert_eq!(
        io_type(Expr::Loop { body: io_block(vec![io_send("a")]) }),
        Ok(Some(PartialLocalType::RecX(1, Box::new(io_s("a", PartialLocalType::X(1))))))
    );
    assert_eq!(
        gen_session_type(
            &Expr::While { cond: Box::new(Expr::Lit), body: io_block(vec![io_send("a")]) },
            "s",
            4
        ),
        Ok(Some(PartialLocalType::RecX(
            5,
            Box::new(PartialLocalType::InternalChoice(vec![io_s("a", PartialLocalType::X(5)), io_end()]))
        )))
    );
    assert_eq!(
        io_type(Expr::While { cond: Box::new(io_receive("c")), body: io_block(vec![]) }),
        Ok(Some(PartialLocalType::RecX(
            1,
            Box::new(io_r("c", PartialLocalType::InternalChoice(vec![PartialLocalType::X(1), io_end()])))
        )))
    );
    assert_eq!(
        io_type(Expr::ForLoop { expr: Box::new(io_receive("n")), body: io_block(vec![io_send("a")]) }),
        Ok(Some(io_r(
            "n",
            PartialLocalType::RecX(
                1,
                Box::new(PartialLocalType::InternalChoice(vec![io_s("a", PartialLocalType::X(1)), io_end()]))
            )
        )))
    );
    // a loop inside a loop has the next id
    assert_eq!(
        io_type(Expr::Loop {
            body: io_block(vec![Expr::Loop { body: io_block(vec![Expr::Break]) }, io_send("a")])
        }),
        Ok(Some(PartialLocalType::RecX(
            1,
            Box::new(PartialLocalType::RecX(2, Box::new(io_s("a", PartialLocalType::X(1)))))
        )))
    );
}

#[test]
fn sequences() {
    assert_eq!(sequence_session_types(vec![]), Ok(io_end()));
    assert_eq!(
        sequence_session_types(vec![io_s("a", io_end()), io_end(), io_r("b", io_end())]),
        Ok(io_s("a", io_r("b", io_end())))
    );
    // a jump back, or a break, ends the sequence
    assert_eq!(
        sequence_session_types(vec![io_s("a", io_end()), PartialLocalType::X(3), io_r("b", io_end())]),
        Ok(io_s("a", PartialLocalType::X(3)))
    );
    assert_eq!(
        sequence_session_types(vec![io_s("a", io_end()), PartialLocalType::Break, io_r("b", io_end())]),
        Ok(io_s("a", PartialLocalType::Break))
    );
    // a loop is left by its breaks, and goes on where it ends
    assert_eq!(
        sequence_session_types(vec![
            PartialLocalType::RecX(
                1,
                Box::new(PartialLocalType::ExternalChoice(vec![
                    io_r("again", PartialLocalType::X(1)),
                    io_r("stop", PartialLocalType::Break),
                    io_r("done", io_end()),
                ]))
            ),
            io_s("after", io_end()),
        ]),
        Ok(PartialLocalType::RecX(
            1,
            Box::new(PartialLocalType::ExternalChoice(vec![
                io_r("again", PartialLocalType::X(1)),
                io_r("stop", io_s("after", io_end())),
                io_r("done", io_s("after", io_end())),
            ]))
        ))
    );
    // a choice goes on in each of its alternatives
    assert_eq!(
        sequence_session_types(vec![
            PartialLocalType::InternalChoice(vec![io_s("a", io_end()), PartialLocalType::Break]),
            io_s("b", io_end()),
        ]),
        Ok(PartialLocalType::InternalChoice(vec![io_s("a", io_s("b", io_end())), PartialLocalType::Break]))
    );
}

#[test]
fn blocks() {
    assert_eq!(infer_block_session_type(&io_block(vec![]), 0), Ok(io_end()));
    let block = Block {
        stmts: vec![Stmt::Other, Stmt::Expr(io_send("a")), Stmt::Other, Stmt::Expr(io_receive("b"))],
    };
    assert_eq!(infer_block_session_type(&block, 0), Ok(io_s("a", io_r("b", io_end()))));
    // inside a block the session is `s`, whatever it is called outside
    assert_eq!(
        gen_session_type(
            &Expr::Block(io_block(vec![
                io_send("a"),
                io_call("session", "send", None, vec![Expr::Path(io_name("b"))])
            ])),
            "session",
            0
        ),
        Ok(Some(io_s("a", io_end())))
    );
    let failing = Block { stmts: vec![Stmt::Expr(io_send("a")), Stmt::Expr(io_call("s", "close", None, vec![]))] };
    assert_eq!(infer_block_session_type(&failing, 0), io_err("Invalid method call"));
}

#[test]
fn the_parameter_that_is_the_session() {
    let typed = |name: &str, ty: Type| FnArg::Typed { name: Some(String::from(name)), ty };
    assert_eq!(get_session_arg(&vec![]), None);
    assert_eq!(
        get_session_arg(&vec![
            FnArg::Receiver,
            typed("x", Type::Path(io_name("u32"))),
            typed("session", Type::Other),
            typed("session", Type::Path(io_long("a", "B"))),
            FnArg::Typed { name: None, ty: Type::Path(io_name("Hidden")) },
            typed("session", Type::Path(io_name("Session"))),
            typed("session", Type::Path(io_name("Later"))),
        ]),
        Some(String::from("Session"))
    );
    assert_eq!(get_session_arg(&vec![typed("s", Type::Path(io_name("Session")))]), None);
}

fn io_code_call(path: &str, args: Vec<Code>) -> Code {
    Code::Call(String::from(path), args)
}

fn io_code_string(text: &str) -> Code {
    io_code_call("String::from", vec![Code::Str(String::from(text))])
}

fn io_code_eq(a: &Code, b: &Code) -> bool {
    format!("{:?}", a) == format!("{:?}", b)
}

#[test]
fn generated_expressions() {
    assert!(io_code_eq(&option_to_ast(&None), &Code::Path(String::from("None"))));
    assert!(io_code_eq(&option_to_ast(&Some(-4)), &io_code_call("Some", vec![Code::Int(-4)])));

    let session = MPSTLocalType::recX_with_id(
        Box::new(MPSTLocalType::Select(
            Participant::new(Some(String::from("B"))),
            vec![
                (String::from("more"), MPSTLocalType::X(Some(1), false)),
                (String::from("stop"), MPSTLocalType::Branch(Participant::anonymous(), vec![])),
                (String::from("end"), MPSTLocalType::End),
            ],
        )),
        1,
    );
    let participant = |role: Code| io_code_call("::inference::session_type::Participant::new", vec![role]);
    let expected = Code::Struct(
        String::from("::inference::session_type::MPSTLocalType::RecX"),
        vec![
            (
                String::from("cont"),
                io_code_call(
                    "Box::new",
                    vec![io_code_call(
                        "::inference::session_type::MPSTLocalType::Select",
                        vec![
                            participant(io_code_call("Some", vec![io_code_string("B")])),
                            Code::VecOf(vec![
                                Code::Tuple(vec![
                                    io_code_string("more"),
                                    io_code_call(
                                        "::inference::session_type::MPSTLocalType::X",
                                        vec![io_code_call("Some", vec![Code::Int(1)]), Code::Bool(false)],
                                    ),
                                ]),
                                Code::Tuple(vec![
                                    io_code_string("stop"),
                                    io_code_call(
                                        "::inference::session_type::MPSTLocalType::Branch",
                                        vec![participant(Code::Path(String::from("None"))), Code::VecOf(vec![])],
                                    ),
                                ]),
                                Code::Tuple(vec![
                                    io_code_string("end"),
                                    Code::Path(String::from("::inference::session_type::MPSTLocalType::End")),
                                ]),
                            ]),
                        ],
                    )],
                ),
            ),
            (String::from("id"), Code::Int(1)),
            (String::from("min_depth"), Code::Path(String::from("None"))),
            (String::from("max_depth"), Code::Path(String::from("None"))),
        ],
    );
    assert!(io_code_eq(&session.to_syn_ast(), &expected));

    let local = LocalType::Send(
        String::from("a"),
        Box::new(LocalType::RecX(
            2,
            Box::new(LocalType::InternalChoice(vec![
                LocalType::Receive(String::from("b"), Box::new(LocalType::X(2))),
                LocalType::ExternalChoice(vec![LocalType::End]),
            ])),
        )),
    );
    let boxed = |c: Code| io_code_call("Box::new", vec![c]);
    let expected = io_code_call(
        "::inference::ilt::LocalType::Send",
        vec![
            io_code_string("a"),
            boxed(io_code_call(
                "::inference::ilt::LocalType::RecX",
                vec![
                    Code::Int(2),
                    boxed(io_code_call(
                        "::inference::ilt::LocalType::InternalChoice",
                        vec![Code::VecOf(vec![
                            io_code_call(
                                "::inference::ilt::LocalType::Receive",
                                vec![
                                    io_code_string("b"),
                                    boxed(io_code_call("::inference::ilt::LocalType::X", vec![Code::Int(2)])),
                                ],
                            ),
                            io_code_call(
                                "::inference::ilt::LocalType::ExternalChoice",
                                vec![Code::VecOf(vec![Code::Path(String::from(
                                    "::inference::ilt::LocalType::End",
                                ))])],
                            ),
                        ])],
                    )),
                ],
            )),
        ],
    );
    assert!(io_code_eq(&local.to_syn_ast(), &expected));
}

#[test]
fn what_is_generated_beside_a_function() {
    let generated = infer_session_type("client", &io_block(vec![io_send("Hello"), io_receive("Bye")])).unwrap();
    assert_eq!(generated.session_type_id, "get_session_type_client");
    assert_eq!(generated.rumpsteak_session_type_id, "get_rumpsteak_session_type_client");
    let local = LocalType::Send(
        String::from("Hello"),
        Box::new(LocalType::Receive(String::from("Bye"), Box::new(LocalType::End))),
    );
    assert!(io_code_eq(&generated.ilt, &local.to_syn_ast()));
    let session = local.to_session_type().unwrap();
    assert!(io_code_eq(generated.rumpsteak_session_type.as_ref().unwrap(), &session.to_syn_ast()));

    // a choice with the same label twice has a local type and no session type
    let conflicting = io_block(vec![
        Expr::While { cond: Box::new(Expr::Lit), body: io_block(vec![io_send("Query")]) },
        io_send("Query"),
    ]);
    let generated = infer_session_type("f", &conflicting).unwrap();
    assert_eq!(generated.rumpsteak_session_type.unwrap_err(), "Label Query is not unique");

    // nothing is generated for a body without a local type
    assert_eq!(
        infer_session_type("f", &io_block(vec![io_call("s", "close", None, vec![])])).unwrap_err(),
        "Invalid method call"
    );
    assert_eq!(
        infer_session_type("f", &io_block(vec![Expr::Break])).unwrap_err(),
        "Break is not a valid local type. Please remove before converting to local type"
    );
}
