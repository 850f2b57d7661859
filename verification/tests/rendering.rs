use inference::global_type::GlobalType;
use inference::ilt::LocalType;
use inference::parties::Parties;
use inference::render::push_decimal;
use inference::session_type::{MPSTLocalType, Participant};

fn rd_role(name: &str) -> Participant {
    Participant::new(Some(String::from(name)))
}

fn rd_decimal(v: i32) -> String {
    let mut out = String::from(">");
    push_decimal(v, &mut out);
    out
}

#[test]
fn decimal_numbers() {
    assert_eq!(rd_decimal(0), ">0");
    assert_eq!(rd_decimal(7), ">7");
    assert_eq!(rd_decimal(10), ">10");
    assert_eq!(rd_decimal(-1), ">-1");
    assert_eq!(rd_decimal(1234567890), ">1234567890");
    assert_eq!(rd_decimal(i32::MAX), ">2147483647");
    assert_eq!(rd_decimal(i32::MIN), ">-2147483648");
    for v in [-1000, -99, -10, -9, 9, 99, 100, 101, 65536] {
        assert_eq!(rd_decimal(v), format!(">{}", v));
    }
}

#[test]
fn participants() {
    assert_eq!(rd_role("Client").render(), "Client");
    assert_eq!(Participant::anonymous().render(), "?");
    assert_eq!(rd_role("").render(), "");
}

#[test]
fn local_types() {
    assert_eq!(MPSTLocalType::End.render(), "End");
    assert_eq!(MPSTLocalType::x().render(), "X(None, false)");
    assert_eq!(MPSTLocalType::x_with_id(-2).render(), "X(Some(-2), false)");
    assert_eq!(MPSTLocalType::X(Some(12), true).render(), "X(Some(12), true)");
    assert_eq!(
        MPSTLocalType::recX_with_id(Box::new(MPSTLocalType::End), 3).render(),
        "Rec[3]<End>"
    );
    assert_eq!(MPSTLocalType::Select(rd_role("B"), vec![]).render(), "Select<B, {}");
    assert_eq!(
        MPSTLocalType::Branch(
            Participant::anonymous(),
            vec![
                (String::from("L"), MPSTLocalType::End),
                (String::from("R"), MPSTLocalType::send(rd_role("C"), String::from("M"), MPSTLocalType::End)),
            ]
        )
        .render(),
        "Branch<?, {L.End, R.Select<C, {M.End, }, }"
    );
    let mut out = String::from("type: ");
    MPSTLocalType::End.render_into(&mut out);
    assert_eq!(out, "type: End");
}

#[test]
fn global_types() {
    assert_eq!(GlobalType::End.render(), "end");
    assert_eq!(GlobalType::X(4).render(), "X[4]");
    assert_eq!(GlobalType::RecX(0, Box::new(GlobalType::X(0))).render(), "Rec[0]<X[0]>");
    assert_eq!(
        GlobalType::Send(rd_role("A"), rd_role("B"), String::from("Hi"), Box::new(GlobalType::End)).render(),
        "Send<A, B, Hi, end>"
    );
    assert_eq!(GlobalType::Select(rd_role("A"), rd_role("B"), vec![]).render(), "Select<A, B, { }>");
    assert_eq!(
        GlobalType::Select(
            rd_role("A"),
            Participant::anonymous(),
            vec![(String::from("L"), GlobalType::End), (String::from("R"), GlobalType::X(1))]
        )
        .render(),
        "Select<A, ?, { L. end, R. X[1], }>"
    );
}

#[test]
fn states() {
    assert_eq!(Parties::new(vec![]).render(), "Parties { }");
    assert_eq!(
        Parties::new(vec![
            (rd_role("B"), MPSTLocalType::x()),
            (rd_role("A"), MPSTLocalType::End),
        ])
        .render(),
        "Parties { A: End, B: X(None, false), }"
    );
}

#[test]
fn inferred_local_types() {
    assert_eq!(LocalType::End.render(), "end");
    assert_eq!(LocalType::X(3).render(), "X");
    assert_eq!(LocalType::RecX(3, Box::new(LocalType::X(3))).render(), "\u{3bc}X.X");
    assert_eq!(
        LocalType::Send(String::from("a"), Box::new(LocalType::Receive(String::from("b"), Box::new(LocalType::End))))
            .render(),
        "Send(?, a, Receive(?, b, end))"
    );
    assert_eq!(LocalType::InternalChoice(vec![]).render(), "InternalChoice()");
    assert_eq!(
        LocalType::ExternalChoice(vec![LocalType::End, LocalType::X(1)]).render(),
        "ExternalChoice(end, X, )"
    );
}
