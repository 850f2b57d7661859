use inference::global_type::GlobalType;
use inference::merging::{
    enumerate_duals, merge_local_types, merge_locals, reduce_then_merge, try_merge_locals,
    unwrap_rec,
};
use inference::model::MergeError;
use inference::parties::{Parties, RecursiveContext};
use inference::session_type::{MPSTLocalType, Participant};

fn sc_role(name: &str) -> Participant {
    Participant::new(Some(String::from(name)))
}

fn sc_conts(conts: Vec<(&str, MPSTLocalType)>) -> Vec<(String, MPSTLocalType)> {
    conts.into_iter().map(|(l, t)| (String::from(l), t)).collect()
}

fn sc_select(to: &str, conts: Vec<(&str, MPSTLocalType)>) -> MPSTLocalType {
    MPSTLocalType::Select(sc_role(to), sc_conts(conts))
}

fn sc_branch(from: &str, conts: Vec<(&str, MPSTLocalType)>) -> MPSTLocalType {
    MPSTLocalType::Branch(sc_role(from), sc_conts(conts))
}

fn sc_rec(id: i32, body: MPSTLocalType) -> MPSTLocalType {
    MPSTLocalType::recX_with_id(Box::new(body), id)
}

fn sc_x(id: i32) -> MPSTLocalType {
    MPSTLocalType::x_with_id(id)
}

fn sc_end() -> MPSTLocalType {
    MPSTLocalType::End
}

fn sc_choice(from: &str, to: &str, conts: Vec<(&str, GlobalType)>) -> GlobalType {
    GlobalType::Select(
        sc_role(from),
        sc_role(to),
        conts.into_iter().map(|(l, t)| (String::from(l), t)).collect(),
    )
}

fn sc_message(from: &str, to: &str, label: &str, cont: GlobalType) -> GlobalType {
    GlobalType::Send(sc_role(from), sc_role(to), String::from(label), Box::new(cont))
}

fn sc_merge(parties: Vec<(&str, MPSTLocalType)>) -> Result<GlobalType, MergeError> {
    merge_locals(Parties::new(parties.into_iter().map(|(p, t)| (sc_role(p), t)).collect()))
}

#[test]
fn binary_request_reply() {
    let a = sc_select("B", vec![("Req", sc_branch("B", vec![("Ans", sc_end())]))]);
    let b = sc_branch("A", vec![("Req", sc_select("A", vec![("Ans", sc_end())]))]);
    let expected =
        sc_choice("A", "B", vec![("Req", sc_choice("B", "A", vec![("Ans", GlobalType::End)]))]);
    assert_eq!(sc_merge(vec![("A", a), ("B", b)]), Ok(expected));
}

#[test]
fn asymmetric_choice() {
    let a = sc_select(
        "B",
        vec![(
            "Hello",
            sc_branch(
                "B",
                vec![
                    ("Left", sc_branch("B", vec![("LeftEnd", sc_end())])),
                    ("Right", sc_select("B", vec![("RightEnd", sc_end())])),
                ],
            ),
        )],
    );
    let b = sc_branch(
        "A",
        vec![(
            "Hello",
            sc_select(
                "A",
                vec![
                    ("Left", sc_select("A", vec![("LeftEnd", sc_end())])),
                    ("Right", sc_branch("A", vec![("RightEnd", sc_end())])),
                ],
            ),
        )],
    );
    let expected = sc_choice(
        "A",
        "B",
        vec![(
            "Hello",
            sc_choice(
                "B",
                "A",
                vec![
                    ("Left", sc_choice("B", "A", vec![("LeftEnd", GlobalType::End)])),
                    ("Right", sc_choice("A", "B", vec![("RightEnd", GlobalType::End)])),
                ],
            ),
        )],
    );
    assert_eq!(sc_merge(vec![("A", a), ("B", b)]), Ok(expected));
}

#[test]
fn recursive_accumulator() {
    let c = sc_rec(
        1,
        sc_select("S", vec![("Add", sc_x(1)), ("Req", sc_branch("S", vec![("Ans", sc_end())]))]),
    );
    let s = sc_rec(
        1,
        sc_branch("C", vec![("Add", sc_x(1)), ("Req", sc_select("C", vec![("Ans", sc_end())]))]),
    );
    let expected = GlobalType::RecX(
        0,
        Box::new(sc_choice(
            "C",
            "S",
            vec![
                ("Add", GlobalType::X(0)),
                ("Req", sc_choice("S", "C", vec![("Ans", GlobalType::End)])),
            ],
        )),
    );
    assert_eq!(sc_merge(vec![("C", c), ("S", s)]), Ok(expected));
}

#[test]
fn three_party_backtracking() {
    let a = sc_select("B", vec![("L", sc_end()), ("R", sc_end())]);
    let b = sc_branch(
        "A",
        vec![
            ("L", sc_select("C", vec![("L", sc_end())])),
            ("R", sc_select("C", vec![("R", sc_end())])),
        ],
    );
    let c = sc_branch("B", vec![("L", sc_end()), ("R", sc_end())]);
    let expected = sc_choice(
        "A",
        "B",
        vec![
            ("L", sc_choice("B", "C", vec![("L", GlobalType::End)])),
            ("R", sc_choice("B", "C", vec![("R", GlobalType::End)])),
        ],
    );
    assert_eq!(sc_merge(vec![("A", a), ("C", c), ("B", b)]), Ok(expected));
}

#[test]
fn candidate_that_names_another_partner_fails() {
    // C accepts what A offers, but A names B, and B accepts another label
    let a = sc_select("B", vec![("L", sc_end())]);
    let b = sc_branch("A", vec![("M", sc_end())]);
    let c = sc_branch("B", vec![("L", sc_end())]);
    let state = Parties::new(vec![(sc_role("A"), a), (sc_role("B"), b), (sc_role("C"), c)]);
    let duals = enumerate_duals(&state);
    assert_eq!(duals, vec![(sc_role("A"), sc_role("C"))]);
    assert_eq!(merge_locals(state), Err(MergeError::ParticipantMismatch));
}

#[test]
fn backtracking_takes_the_second_pair() {
    // A and D both offer L, B and C both accept it; A names C, so the
    // pair (A, B), which is tried first, fails, and (A, C) is taken.
    let open = |conts| MPSTLocalType::Branch(Participant::anonymous(), sc_conts(conts));
    let state = Parties::new(vec![
        (sc_role("A"), sc_select("C", vec![("L", sc_end())])),
        (sc_role("B"), open(vec![("L", sc_end())])),
        (sc_role("C"), open(vec![("L", sc_end())])),
        (sc_role("D"), sc_select("B", vec![("L", sc_end())])),
    ]);
    assert_eq!(
        enumerate_duals(&state),
        vec![
            (sc_role("A"), sc_role("B")),
            (sc_role("A"), sc_role("C")),
            (sc_role("D"), sc_role("B")),
            (sc_role("D"), sc_role("C")),
        ]
    );
    assert_eq!(
        reduce_then_merge(sc_role("A"), sc_role("B"), &state),
        Err(MergeError::ParticipantMismatch)
    );
    assert_eq!(
        merge_locals(state),
        Ok(sc_choice("A", "C", vec![("L", sc_choice("D", "B", vec![("L", GlobalType::End)]))]))
    );
}

#[test]
fn first_failure_is_reported_when_every_pair_fails() {
    // both receivers take L from A, but the other one is left waiting
    let open = |conts| MPSTLocalType::Branch(Participant::anonymous(), sc_conts(conts));
    let a = MPSTLocalType::Select(Participant::anonymous(), sc_conts(vec![("L", sc_end())]));
    let state = Parties::new(vec![
        (sc_role("A"), a),
        (sc_role("B"), open(vec![("L", sc_end())])),
        (sc_role("C"), open(vec![("L", sc_end())])),
    ]);
    assert_eq!(merge_locals(state), Err(MergeError::NoReducibleDual));
}

#[test]
fn nested_recursion_with_partners() {
    let a = sc_rec(
        1,
        sc_select(
            "B",
            vec![("Hi", sc_rec(2, sc_branch("B", vec![("RepeatX", sc_x(1)), ("RepeatY", sc_x(2))])))],
        ),
    );
    let b = sc_rec(
        1,
        sc_branch(
            "A",
            vec![("Hi", sc_rec(2, sc_select("A", vec![("RepeatX", sc_x(1)), ("RepeatY", sc_x(2))])))],
        ),
    );
    let merged = sc_merge(vec![("A", a), ("B", b)]).unwrap();
    let expected = GlobalType::RecX(
        0,
        Box::new(sc_message(
            "A",
            "B",
            "Hi",
            GlobalType::RecX(
                1,
                Box::new(sc_choice(
                    "B",
                    "A",
                    vec![("RepeatX", GlobalType::X(0)), ("RepeatY", GlobalType::X(1))],
                )),
            ),
        )),
    );
    assert_eq!(merged.simplify(), expected);
}

#[test]
fn eventually_synchronous_quartet() {
    let a = sc_select("B", vec![("Hello", sc_rec(1, sc_select("B", vec![("Repeat1", sc_x(1))])))]);
    let b = sc_branch("A", vec![("Hello", sc_rec(1, sc_branch("A", vec![("Repeat1", sc_x(1))])))]);
    let c = sc_rec(1, sc_branch("D", vec![("Repeat2", sc_x(1))]));
    let d = sc_rec(1, sc_select("C", vec![("Repeat2", sc_x(1))]));
    let merged = sc_merge(vec![("A", a), ("B", b), ("C", c), ("D", d)]).unwrap();
    // all four stand at a binder once A and B have exchanged Hello, so
    // they open one scope together
    let expected = sc_message(
        "A",
        "B",
        "Hello",
        GlobalType::RecX(
            1,
            Box::new(sc_message("A", "B", "Repeat1", sc_message("D", "C", "Repeat2", GlobalType::X(1)))),
        ),
    );
    assert_eq!(merged.simplify(), expected);
}

#[test]
fn end_closure() {
    assert_eq!(sc_merge(vec![]), Ok(GlobalType::End));
    assert_eq!(sc_merge(vec![("A", sc_end())]), Ok(GlobalType::End));
    assert_eq!(
        sc_merge(vec![("A", sc_end()), ("B", sc_end()), ("C", sc_end())]),
        Ok(GlobalType::End)
    );
}

#[test]
fn message_round_trip() {
    for (a, b) in [("A", "B"), ("B", "A"), ("Zed", "Alpha")] {
        let sender = sc_select(b, vec![("Ping", sc_end())]);
        let receiver = sc_branch(a, vec![("Ping", sc_end())]);
        assert_eq!(
            sc_merge(vec![(a, sender), (b, receiver)]),
            Ok(sc_choice(a, b, vec![("Ping", GlobalType::End)]))
        );
    }
}

#[test]
fn label_discipline() {
    let a = sc_select("B", vec![("Hello", sc_end())]);
    assert_eq!(sc_merge(vec![("A", a), ("B", sc_end())]), Err(MergeError::UnmatchedLabel));
    let a = sc_select("B", vec![("Hello", sc_end())]);
    assert_eq!(sc_merge(vec![("A", a)]), Err(MergeError::UnmatchedLabel));
}

#[test]
fn offered_label_that_the_receiver_lacks() {
    // they share Left, so the pair is tried; Right has no taker
    let a = sc_select("B", vec![("Left", sc_end()), ("Right", sc_end())]);
    let b = sc_branch("A", vec![("Left", sc_end())]);
    assert_eq!(sc_merge(vec![("A", a), ("B", b)]), Err(MergeError::UnmatchedLabel));
}

#[test]
fn branch_preservation() {
    let a = sc_select(
        "B",
        vec![
            ("One", sc_end()),
            ("Two", sc_select("B", vec![("More", sc_end())])),
            ("Three", sc_branch("B", vec![("Back", sc_end())])),
        ],
    );
    // the receiver accepts the labels in another order, and one more
    let b = sc_branch(
        "A",
        vec![
            ("Three", sc_select("A", vec![("Back", sc_end())])),
            ("Unused", sc_end()),
            ("Two", sc_branch("A", vec![("More", sc_end())])),
            ("One", sc_end()),
        ],
    );
    let expected = sc_choice(
        "A",
        "B",
        vec![
            ("One", GlobalType::End),
            ("Two", sc_choice("A", "B", vec![("More", GlobalType::End)])),
            ("Three", sc_choice("B", "A", vec![("Back", GlobalType::End)])),
        ],
    );
    assert_eq!(sc_merge(vec![("A", a), ("B", b)]), Ok(expected));
}

fn sc_three_parties() -> Vec<(&'static str, MPSTLocalType)> {
    vec![
        ("A", sc_select("B", vec![("L", sc_end()), ("R", sc_end())])),
        (
            "B",
            sc_branch(
                "A",
                vec![
                    ("L", sc_select("C", vec![("L", sc_end())])),
                    ("R", sc_select("C", vec![("R", sc_end())])),
                ],
            ),
        ),
        ("C", sc_branch("B", vec![("L", sc_end()), ("R", sc_end())])),
    ]
}

#[test]
fn order_of_participants_does_not_matter() {
    let reference = sc_merge(sc_three_parties());
    assert!(reference.is_ok());
    for order in [[0, 1, 2], [0, 2, 1], [1, 0, 2], [1, 2, 0], [2, 0, 1], [2, 1, 0]] {
        let all = sc_three_parties();
        let listed: Vec<(&str, MPSTLocalType)> =
            order.iter().map(|&i| (all[i].0, all[i].1.clone())).collect();
        assert_eq!(sc_merge(listed), reference);
    }
}

fn sc_variables(t: &GlobalType, out: &mut Vec<i32>) {
    match t {
        GlobalType::Send(_, _, _, cont) => sc_variables(cont, out),
        GlobalType::Select(_, _, conts) => {
            for (_, cont) in conts {
                sc_variables(cont, out);
            }
        }
        GlobalType::RecX(_, cont) => sc_variables(cont, out),
        GlobalType::X(id) => out.push(*id),
        GlobalType::End => {}
    }
}

#[test]
fn recursion_alignment() {
    let a = sc_rec(
        7,
        sc_select(
            "B",
            vec![
                ("Again", sc_branch("B", vec![("Ack", sc_x(7))])),
                ("Stop", sc_end()),
                ("Loop", sc_x(7)),
            ],
        ),
    );
    let b = sc_rec(
        3,
        sc_branch(
            "A",
            vec![
                ("Again", sc_select("A", vec![("Ack", sc_x(3))])),
                ("Stop", sc_end()),
                ("Loop", sc_x(3)),
            ],
        ),
    );
    let merged = sc_merge(vec![("A", a), ("B", b)]).unwrap();
    let expected_body = sc_choice(
        "A",
        "B",
        vec![
            ("Again", sc_choice("B", "A", vec![("Ack", GlobalType::X(0))])),
            ("Stop", GlobalType::End),
            ("Loop", GlobalType::X(0)),
        ],
    );
    assert_eq!(merged, GlobalType::RecX(0, Box::new(expected_body)));
    let mut variables = Vec::new();
    sc_variables(&merged, &mut variables);
    assert_eq!(variables, vec![0, 0]);
}

#[test]
fn recursion_alignment_with_labels_in_another_order() {
    let a = sc_rec(1, sc_select("B", vec![("Stop", sc_end()), ("Loop", sc_x(1))]));
    let b = sc_rec(2, sc_branch("A", vec![("Loop", sc_x(2)), ("Stop", sc_end())]));
    let body = sc_choice("A", "B", vec![("Stop", GlobalType::End), ("Loop", GlobalType::X(0))]);
    assert_eq!(sc_merge(vec![("B", b), ("A", a)]), Ok(GlobalType::RecX(0, Box::new(body))));
}

#[test]
fn peer_at_end_outside_the_loop() {
    let a = sc_rec(1, sc_select("B", vec![("Ping", sc_x(1))]));
    let b = sc_rec(1, sc_branch("A", vec![("Ping", sc_x(1))]));
    let merged = sc_merge(vec![("A", a), ("B", b), ("C", sc_end())]);
    assert_eq!(
        merged,
        Ok(GlobalType::RecX(0, Box::new(sc_choice("A", "B", vec![("Ping", GlobalType::X(0))]))))
    );
}

#[test]
fn peer_that_acted_before_the_loop_was_opened() {
    let a = sc_select("B", vec![("Hello", sc_rec(1, sc_select("C", vec![("Ping", sc_x(1))])))]);
    let b = sc_branch("A", vec![("Hello", sc_end())]);
    let c = sc_rec(1, sc_branch("A", vec![("Ping", sc_x(1))]));
    let merged = sc_merge(vec![("A", a), ("B", b), ("C", c)]);
    let expected = sc_choice(
        "A",
        "B",
        vec![(
            "Hello",
            GlobalType::RecX(1, Box::new(sc_choice("A", "C", vec![("Ping", GlobalType::X(1))]))),
        )],
    );
    assert_eq!(merged, Ok(expected));
}

#[test]
fn peer_that_ends_inside_the_loop_is_unaligned() {
    let a = sc_rec(1, sc_select("B", vec![("Ping", sc_x(1))]));
    let b = sc_rec(1, sc_branch("A", vec![("Ping", sc_end())]));
    assert_eq!(sc_merge(vec![("A", a), ("B", b)]), Err(MergeError::UnalignedEnd));
}

#[test]
fn peers_that_go_back_to_different_scopes() {
    let a = sc_rec(
        1,
        sc_select("B", vec![("Hi", sc_rec(2, sc_select("B", vec![("Go", sc_x(1))])))]),
    );
    let b = sc_rec(
        1,
        sc_branch("A", vec![("Hi", sc_rec(2, sc_branch("A", vec![("Go", sc_x(2))])))]),
    );
    assert_eq!(sc_merge(vec![("A", a), ("B", b)]), Err(MergeError::NoReducibleDual));
}

#[test]
fn no_sender_at_all() {
    let a = sc_branch("B", vec![("L", sc_end())]);
    let b = sc_branch("A", vec![("L", sc_end())]);
    assert_eq!(sc_merge(vec![("A", a), ("B", b)]), Err(MergeError::NoReducibleDual));
}

#[test]
fn partners_that_disagree() {
    let a = sc_select("C", vec![("L", sc_end())]);
    let b = sc_branch("A", vec![("L", sc_end())]);
    assert_eq!(sc_merge(vec![("A", a), ("B", b)]), Err(MergeError::ParticipantMismatch));
    let a = sc_select("B", vec![("L", sc_end())]);
    let b = sc_branch("C", vec![("L", sc_end())]);
    assert_eq!(sc_merge(vec![("A", a), ("B", b)]), Err(MergeError::ParticipantMismatch));
}

#[test]
fn malformed_inputs_fail_fast() {
    let dual = || sc_branch("A", vec![("L", sc_end())]);
    // empty choice
    assert_eq!(
        sc_merge(vec![("A", sc_select("B", vec![])), ("B", dual())]),
        Err(MergeError::MalformedLocal)
    );
    // a label twice
    assert_eq!(
        sc_merge(vec![("A", sc_select("B", vec![("L", sc_end()), ("L", sc_end())])), ("B", dual())]),
        Err(MergeError::MalformedLocal)
    );
    // a variable without its binder
    assert_eq!(
        sc_merge(vec![("A", sc_select("B", vec![("L", sc_x(1))])), ("B", dual())]),
        Err(MergeError::MalformedLocal)
    );
    // a variable of another binder
    assert_eq!(
        sc_merge(vec![("A", sc_rec(1, sc_select("B", vec![("L", sc_x(2))]))), ("B", dual())]),
        Err(MergeError::MalformedLocal)
    );
    // a variable that is mapped already
    assert_eq!(
        sc_merge(vec![("A", MPSTLocalType::X(Some(0), true))]),
        Err(MergeError::MalformedLocal)
    );
    // the id of a binder twice
    assert_eq!(
        sc_merge(vec![(
            "A",
            sc_rec(1, sc_select("B", vec![("L", sc_rec(1, sc_select("B", vec![("M", sc_x(1))])))]))
        )]),
        Err(MergeError::MalformedLocal)
    );
    // a participant without a name
    assert_eq!(
        merge_locals(Parties::new(vec![(Participant::anonymous(), sc_end())])),
        Err(MergeError::MalformedLocal)
    );
    // deep inside, where the merge would not get before it fails otherwise
    assert_eq!(
        sc_merge(vec![
            ("A", sc_select("B", vec![("L", sc_select("B", vec![("M", sc_select("B", vec![]))]))])),
            ("B", sc_end())
        ]),
        Err(MergeError::MalformedLocal)
    );
}

#[test]
fn state_construction() {
    let state = Parties::new(vec![
        (sc_role("B"), sc_end()),
        (sc_role("A"), sc_select("B", vec![("L", sc_end())])),
        (sc_role("B"), sc_branch("A", vec![("L", sc_end())])),
    ]);
    // in the order of participants, the last local type of B
    assert_eq!(state.parties.len(), 2);
    assert_eq!(state.parties[0].0, sc_role("A"));
    assert_eq!(state.parties[1].0, sc_role("B"));
    assert_eq!(state.parties[1].1, sc_branch("A", vec![("L", sc_end())]));
    assert_eq!(state.global_depth, 0);
    assert_eq!(state.local_depth, vec![(sc_role("A"), 0), (sc_role("B"), 0)]);
    assert_eq!(state.recursive_context.global_depth, 0);
    assert_eq!(state.recursive_context.local_depths, vec![(sc_role("A"), 0), (sc_role("B"), 0)]);
    assert!(state.recursive_context.outer.is_none());
    assert!(state.is_workable());
    assert!(!state.is_end_state());
    assert_eq!(state.count_nodes(100), Some(4));
    assert_eq!(state.count_nodes(3), None);
    assert!(state.has_valid_input());
    let copy = state.clone();
    assert_eq!(copy.parties, state.parties);

    let context = RecursiveContext::init(&[sc_role("Z"), sc_role("M"), sc_role("Z")]);
    assert_eq!(context.global_depth, 0);
    assert_eq!(context.local_depths, vec![(sc_role("M"), 0), (sc_role("Z"), 0)]);
    assert!(context.outer.is_none());
    assert!(Parties::new(vec![]).is_end_state());
    assert!(Parties::new(vec![(sc_role("A"), sc_end())]).is_end_state());
}

#[test]
fn states_that_the_merge_cannot_work_on() {
    let mut unsorted = Parties::new(vec![(sc_role("A"), sc_end()), (sc_role("B"), sc_end())]);
    unsorted.parties.swap(0, 1);
    assert!(!unsorted.is_workable());
    assert_eq!(try_merge_locals(unsorted), None);

    let mut short = Parties::new(vec![(sc_role("A"), sc_end()), (sc_role("B"), sc_end())]);
    short.local_depth.pop();
    assert_eq!(try_merge_locals(short), None);

    let mut deep = Parties::new(vec![(sc_role("A"), sc_end())]);
    deep.global_depth = i32::MAX;
    assert_eq!(try_merge_locals(deep), None);

    let mut deep = Parties::new(vec![(sc_role("A"), sc_end())]);
    deep.global_depth = i32::MAX - 1;
    assert_eq!(try_merge_locals(deep), Some(Ok(GlobalType::End)));

    let mut deep = Parties::new(vec![(sc_role("A"), sc_end())]);
    deep.local_depth[0].1 = i32::MAX;
    assert_eq!(try_merge_locals(deep), None);

    assert_eq!(
        merge_local_types(vec![(sc_role("A"), sc_end()), (sc_role("B"), sc_end())]),
        Some(Ok(GlobalType::End))
    );
}

#[test]
fn unfolding_a_scope() {
    let state = Parties::new(vec![
        (sc_role("A"), sc_rec(5, sc_select("B", vec![("L", sc_x(5)), ("M", sc_x(9))]))),
        (sc_role("B"), sc_end()),
    ]);
    let (opened, inner) = unwrap_rec(state);
    assert!(opened);
    assert_eq!(
        inner.parties[0].1,
        sc_select("B", vec![("L", MPSTLocalType::X(Some(0), true)), ("M", sc_x(9))])
    );
    assert_eq!(inner.parties[1].1, sc_end());
    assert_eq!(inner.global_depth, 0);
    assert_eq!(inner.recursive_context.global_depth, 0);

    // one participant stands at a choice: no scope is opened
    let state = Parties::new(vec![
        (sc_role("A"), sc_rec(5, sc_select("B", vec![("L", sc_x(5))]))),
        (sc_role("B"), sc_branch("A", vec![("L", sc_end())])),
    ]);
    let before = state.clone();
    let (opened, same) = unwrap_rec(state);
    assert!(!opened);
    assert_eq!(same.parties, before.parties);

    // all at End: nothing to open
    let (opened, _) = unwrap_rec(Parties::new(vec![(sc_role("A"), sc_end())]));
    assert!(!opened);
}

#[test]
fn the_scope_remembers_the_depths_at_which_it_was_opened() {
    let mut state = Parties::new(vec![
        (sc_role("A"), sc_rec(1, sc_end())),
        (sc_role("B"), sc_end()),
    ]);
    state.global_depth = 4;
    state.local_depth[0].1 = 3;
    state.local_depth[1].1 = 2;
    let (opened, inner) = unwrap_rec(state);
    assert!(opened);
    assert_eq!(inner.global_depth, 4);
    assert_eq!(inner.recursive_context.global_depth, 4);
    assert_eq!(inner.recursive_context.local_depths, vec![(sc_role("A"), 3), (sc_role("B"), 2)]);
    assert_eq!(inner.local_depth, vec![(sc_role("A"), 3), (sc_role("B"), 2)]);
    // the scope before it is still there
    let outer = inner.recursive_context.outer.as_ref().unwrap();
    assert_eq!(outer.global_depth, 0);
    assert_eq!(outer.local_depths, vec![(sc_role("A"), 0), (sc_role("B"), 0)]);
    assert!(outer.outer.is_none());
    assert!(inner.is_workable());
}

#[test]
fn bystander_of_nested_loops() {
    let a = sc_rec(
        1,
        sc_select(
            "B",
            vec![("Hi", sc_rec(2, sc_branch("B", vec![("RepeatX", sc_x(1)), ("RepeatY", sc_x(2))])))],
        ),
    );
    let b = sc_rec(
        1,
        sc_branch(
            "A",
            vec![("Hi", sc_rec(2, sc_select("A", vec![("RepeatX", sc_x(1)), ("RepeatY", sc_x(2))])))],
        ),
    );
    let merged = sc_merge(vec![("A", a), ("B", b), ("C", sc_end())]).unwrap();
    let expected = GlobalType::RecX(
        0,
        Box::new(sc_message(
            "A",
            "B",
            "Hi",
            GlobalType::RecX(
                1,
                Box::new(sc_choice(
                    "B",
                    "A",
                    vec![("RepeatX", GlobalType::X(0)), ("RepeatY", GlobalType::X(1))],
                )),
            ),
        )),
    );
    assert_eq!(merged.simplify(), expected);
}

#[test]
fn peer_that_acted_in_the_outer_loop_only() {
    // C takes part in the outer loop once and ends; A and B go back to
    // the outer loop from the inner one, which C would have to repeat
    let a = sc_rec(
        1,
        sc_select("C", vec![("Once", sc_rec(2, sc_select("B", vec![("Ping", sc_x(1))])))]),
    );
    let b = sc_rec(1, sc_rec(2, sc_branch("A", vec![("Ping", sc_x(1))])));
    let c = sc_rec(1, sc_branch("A", vec![("Once", sc_end())]));
    assert_eq!(sc_merge(vec![("A", a), ("B", b), ("C", c)]), Err(MergeError::UnalignedEnd));

    // where they go back to the inner loop, C is not in their way
    let a = sc_rec(
        1,
        sc_select("C", vec![("Once", sc_rec(2, sc_select("B", vec![("Ping", sc_x(2))])))]),
    );
    let b = sc_rec(1, sc_rec(2, sc_branch("A", vec![("Ping", sc_x(2))])));
    let c = sc_rec(1, sc_branch("A", vec![("Once", sc_end())]));
    let expected = GlobalType::RecX(
        0,
        Box::new(sc_message(
            "A",
            "C",
            "Once",
            GlobalType::RecX(1, Box::new(sc_message("A", "B", "Ping", GlobalType::X(1)))),
        )),
    );
    assert_eq!(sc_merge(vec![("A", a), ("B", b), ("C", c)]).map(|g| g.simplify()), Ok(expected));
}

#[test]
fn dual_pairs_in_order_and_once() {
    let state = Parties::new(vec![
        (sc_role("D"), sc_select("A", vec![("x", sc_end()), ("y", sc_end())])),
        (sc_role("A"), sc_branch("D", vec![("x", sc_end()), ("y", sc_end())])),
        (sc_role("C"), sc_select("B", vec![("y", sc_end())])),
        (sc_role("B"), sc_branch("C", vec![("y", sc_end()), ("z", sc_end())])),
        (sc_role("E"), sc_rec(1, sc_end())),
    ]);
    assert_eq!(
        enumerate_duals(&state),
        vec![
            (sc_role("C"), sc_role("A")),
            (sc_role("C"), sc_role("B")),
            (sc_role("D"), sc_role("A")),
            (sc_role("D"), sc_role("B")),
        ]
    );
}

#[test]
fn reducing_one_pair() {
    let state = Parties::new(vec![
        (sc_role("A"), sc_select("B", vec![("L", sc_end())])),
        (sc_role("B"), sc_branch("A", vec![("L", sc_end())])),
    ]);
    let expected = sc_choice("A", "B", vec![("L", GlobalType::End)]);
    // whichever of the two is named first, the sender comes first
    assert_eq!(reduce_then_merge(sc_role("A"), sc_role("B"), &state), Ok(expected.clone()));
    assert_eq!(reduce_then_merge(sc_role("B"), sc_role("A"), &state), Ok(expected));
    assert_eq!(
        reduce_then_merge(sc_role("A"), sc_role("C"), &state),
        Err(MergeError::NoReducibleDual)
    );
    assert_eq!(
        reduce_then_merge(sc_role("A"), sc_role("A"), &state),
        Err(MergeError::NoReducibleDual)
    );
}

#[test]
fn simplification_of_single_choices() {
    let t = sc_choice(
        "A",
        "B",
        vec![(
            "One",
            sc_choice(
                "B",
                "A",
                vec![
                    ("Left", sc_choice("A", "B", vec![("Only", GlobalType::X(2))])),
                    ("Right", GlobalType::RecX(2, Box::new(sc_choice("A", "B", vec![])))),
                ],
            ),
        )],
    );
    let expected = sc_message(
        "A",
        "B",
        "One",
        sc_choice(
            "B",
            "A",
            vec![
                ("Left", sc_message("A", "B", "Only", GlobalType::X(2))),
                ("Right", GlobalType::RecX(2, Box::new(sc_choice("A", "B", vec![])))),
            ],
        ),
    );
    assert_eq!(t.simplify(), expected);
    assert_eq!(expected.simplify(), expected);
    assert_ne!(t, expected);
    assert_eq!(t.clone(), t);
}
