use inference::global_type::GlobalType;
use inference::merging::merge_locals;
use inference::parties::Parties;
use inference::session_type::{MPSTLocalType, Participant};

fn ta_send(label: &str, cont: MPSTLocalType) -> MPSTLocalType {
    MPSTLocalType::send(Participant::anonymous(), String::from(label), cont)
}

fn ta_receive(label: &str, cont: MPSTLocalType) -> MPSTLocalType {
    MPSTLocalType::receive(Participant::anonymous(), String::from(label), cont)
}

fn ta_choice(from: &str, to: &str, conts: Vec<(&str, GlobalType)>) -> GlobalType {
    GlobalType::Select(
        Participant::new(Some(String::from(from))),
        Participant::new(Some(String::from(to))),
        conts.into_iter().map(|(l, t)| (String::from(l), t)).collect(),
    )
}

#[test]
fn travel_agency() {
    // The client orders, gets a quote, and rejects it or accepts it, sends
    // its address and gets a date.
    let client_mpst_local = ta_send(
        "Order",
        ta_receive(
            "Quote",
            MPSTLocalType::Select(
                Participant::anonymous(),
                vec![
                    (String::from("Reject"), MPSTLocalType::End),
                    (
                        String::from("Accept"),
                        ta_send("Address", ta_receive("Date", MPSTLocalType::End)),
                    ),
                ],
            ),
        ),
    );
    let agency_mpst_local = ta_receive(
        "Order",
        ta_send(
            "Quote",
            MPSTLocalType::Branch(
                Participant::anonymous(),
                vec![
                    (
                        String::from("Accept"),
                        ta_receive("Address", ta_send("Date", MPSTLocalType::End)),
                    ),
                    (String::from("Reject"), MPSTLocalType::End),
                ],
            ),
        ),
    );

    let client_role = Participant::new(Some(String::from("C")));
    let agency_role = Participant::new(Some(String::from("A")));

    println!("Client.MPSTLocalType: {}", client_mpst_local.render());
    println!("Agency.MPSTLocalType: {}", agency_mpst_local.render());

    let merged = merge_locals(Parties::new(vec![
        (client_role, client_mpst_local),
        (agency_role, agency_mpst_local),
    ]))
    .unwrap();
    println!("{}", merged.render());
    let expected = ta_choice(
        "C",
        "A",
        vec![(
            "Order",
            ta_choice(
                "A",
                "C",
                vec![(
                    "Quote",
                    ta_choice(
                        "C",
                        "A",
                        vec![
                            ("Reject", GlobalType::End),
                            (
                                "Accept",
                                ta_choice(
                                    "C",
                                    "A",
                                    vec![("Address", ta_choice("A", "C", vec![("Date", GlobalType::End)]))],
                                ),
                            ),
                        ],
                    ),
                )],
            ),
        )],
    );
    assert_eq!(merged, expected);
}
