use inference::ilt::{LocalType, PartialLocalType};
use inference::session_type::{MPSTLocalType, Participant};

fn it_send(label: &str, cont: PartialLocalType) -> PartialLocalType {
    PartialLocalType::Send(String::from(label), Box::new(cont))
}

fn it_receive(label: &str, cont: PartialLocalType) -> PartialLocalType {
    PartialLocalType::Receive(String::from(label), Box::new(cont))
}

fn it_sample() -> PartialLocalType {
    it_send(
        "a",
        PartialLocalType::RecX(
            1,
            Box::new(PartialLocalType::InternalChoice(vec![
                it_receive("b", PartialLocalType::X(1)),
                PartialLocalType::Break,
                PartialLocalType::End,
                PartialLocalType::ExternalChoice(vec![PartialLocalType::Break, PartialLocalType::End]),
            ])),
        ),
    )
}

fn it_sample_with(break_: PartialLocalType, end: PartialLocalType) -> PartialLocalType {
    it_send(
        "a",
        PartialLocalType::RecX(
            1,
            Box::new(PartialLocalType::InternalChoice(vec![
                it_receive("b", PartialLocalType::X(1)),
                break_.clone(),
                end.clone(),
                PartialLocalType::ExternalChoice(vec![break_, end]),
            ])),
        ),
    )
}

#[test]
fn breaks_are_replaced() {
    let by = it_send("out", PartialLocalType::End);
    assert_eq!(it_sample().map_break_to(by.clone()), it_sample_with(by, PartialLocalType::End));
    assert_eq!(PartialLocalType::Break.map_break_to(PartialLocalType::X(2)), PartialLocalType::X(2));
    assert_eq!(PartialLocalType::End.map_break_to(PartialLocalType::X(2)), PartialLocalType::End);
    assert_eq!(PartialLocalType::X(1).map_break_to(PartialLocalType::X(2)), PartialLocalType::X(1));
}

#[test]
fn ends_are_replaced() {
    let by = it_send("next", PartialLocalType::End);
    assert_eq!(it_sample().map_end_to(by.clone()), it_sample_with(PartialLocalType::Break, by));
    assert_eq!(PartialLocalType::End.map_end_to(PartialLocalType::X(2)), PartialLocalType::X(2));
    assert_eq!(PartialLocalType::Break.map_end_to(PartialLocalType::X(2)), PartialLocalType::Break);
    assert_eq!(PartialLocalType::X(1).map_end_to(PartialLocalType::X(2)), PartialLocalType::X(1));
}

#[test]
fn finished_types_and_types_in_the_making() {
    let finished = LocalType::Send(
        String::from("a"),
        Box::new(LocalType::RecX(
            1,
            Box::new(LocalType::InternalChoice(vec![
                LocalType::Receive(String::from("b"), Box::new(LocalType::X(1))),
                LocalType::End,
                LocalType::ExternalChoice(vec![LocalType::End]),
            ])),
        )),
    );
    let partial = it_send(
        "a",
        PartialLocalType::RecX(
            1,
            Box::new(PartialLocalType::InternalChoice(vec![
                it_receive("b", PartialLocalType::X(1)),
                PartialLocalType::End,
                PartialLocalType::ExternalChoice(vec![PartialLocalType::End]),
            ])),
        ),
    );
    assert_eq!(PartialLocalType::of_local_type(finished.clone()), partial);
    assert_eq!(partial.to_local_type(), Ok(finished.clone()));
    assert_eq!(finished.clone(), finished);
    assert_ne!(finished, LocalType::End);
    assert_eq!(partial.clone(), partial);
    assert_ne!(partial, PartialLocalType::Break);
}

#[test]
fn a_type_with_a_break_is_not_finished() {
    let message = String::from(
        "Break is not a valid local type. Please remove before converting to local type",
    );
    assert_eq!(PartialLocalType::Break.to_local_type(), Err(message.clone()));
    assert_eq!(it_sample().to_local_type(), Err(message.clone()));
    assert_eq!(
        PartialLocalType::ExternalChoice(vec![PartialLocalType::End, it_send("a", PartialLocalType::Break)])
            .to_local_type(),
        Err(message)
    );
}

fn it_anon() -> Participant {
    Participant::anonymous()
}

#[test]
fn session_types_of_local_types() {
    let send = |l: &str, c: LocalType| LocalType::Send(String::from(l), Box::new(c));
    let receive = |l: &str, c: LocalType| LocalType::Receive(String::from(l), Box::new(c));
    assert_eq!(LocalType::End.to_session_type(), Ok(MPSTLocalType::End));
    assert_eq!(LocalType::X(5).to_session_type(), Ok(MPSTLocalType::X(Some(5), false)));
    assert_eq!(
        LocalType::RecX(5, Box::new(send("a", LocalType::X(5)))).to_session_type(),
        Ok(MPSTLocalType::recX_with_id(
            Box::new(MPSTLocalType::send(it_anon(), String::from("a"), MPSTLocalType::x_with_id(5))),
            5
        ))
    );
    assert_eq!(
        receive("a", LocalType::End).to_session_type(),
        Ok(MPSTLocalType::receive(it_anon(), String::from("a"), MPSTLocalType::End))
    );
    assert_eq!(
        LocalType::InternalChoice(vec![send("a", LocalType::End), send("b", receive("c", LocalType::End))])
            .to_session_type(),
        Ok(MPSTLocalType::Select(
            it_anon(),
            vec![
                (String::from("a"), MPSTLocalType::End),
                (String::from("b"), MPSTLocalType::receive(it_anon(), String::from("c"), MPSTLocalType::End)),
            ]
        ))
    );
    assert_eq!(
        LocalType::ExternalChoice(vec![receive("a", LocalType::End), receive("b", LocalType::End)])
            .to_session_type(),
        Ok(MPSTLocalType::Branch(
            it_anon(),
            vec![(String::from("a"), MPSTLocalType::End), (String::from("b"), MPSTLocalType::End)]
        ))
    );
    assert_eq!(
        LocalType::InternalChoice(vec![]).to_session_type(),
        Ok(MPSTLocalType::Select(it_anon(), vec![]))
    );
}

#[test]
fn local_types_without_a_session_type() {
    let send = |l: &str, c: LocalType| LocalType::Send(String::from(l), Box::new(c));
    let receive = |l: &str, c: LocalType| LocalType::Receive(String::from(l), Box::new(c));
    assert_eq!(
        LocalType::InternalChoice(vec![send("a", LocalType::End), send("a", LocalType::End)])
            .to_session_type(),
        Err(String::from("Label a is not unique"))
    );
    assert_eq!(
        LocalType::ExternalChoice(vec![
            receive("a", LocalType::End),
            receive("b", LocalType::End),
            receive("a", LocalType::End)
        ])
        .to_session_type(),
        Err(String::from("Label a is not unique"))
    );
    assert_eq!(
        LocalType::InternalChoice(vec![send("a", LocalType::End), receive("b", LocalType::X(1))])
            .to_session_type(),
        Err(String::from("Internal choice must be followed by a send, found Receive(?, b, X)"))
    );
    assert_eq!(
        LocalType::InternalChoice(vec![LocalType::End]).to_session_type(),
        Err(String::from("Internal choice must be followed by a send, found end"))
    );
    assert_eq!(
        LocalType::ExternalChoice(vec![send("a", LocalType::End)]).to_session_type(),
        Err(String::from("External choice must be followed by a receive, found Send(?, a, end)"))
    );
    // the first alternative at fault decides, and an error deep inside comes up
    assert_eq!(
        send(
            "x",
            LocalType::RecX(
                1,
                Box::new(LocalType::ExternalChoice(vec![
                    receive("a", LocalType::InternalChoice(vec![LocalType::X(1)])),
                    send("b", LocalType::End),
                ]))
            )
        )
        .to_session_type(),
        Err(String::from("Internal choice must be followed by a send, found X"))
    );
    // the label is checked before the continuation
    assert_eq!(
        LocalType::InternalChoice(vec![
            send("a", LocalType::End),
            send("a", LocalType::InternalChoice(vec![LocalType::End])),
        ])
        .to_session_type(),
        Err(String::from("Label a is not unique"))
    );
}
