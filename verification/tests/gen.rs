use kv_transport::protocol::request::Command;
use kv_transport::protocol::response::{Outcome, Response};
use kv_transport::test_support::gen::Gen;

fn sentences() -> Vec<String> {
    vec![
        "Twas brillig and the slythy toves did gyre and gimble in the wabe.".to_string(),
        "A screaming comes across the sky.".to_string(),
        "It has happened before, but there is nothing to compare it to now.".to_string(),
        "Stately, plump Buck Mulligan came from the stairhead".to_string(),
        "bearing a bowl of lather on which a mirror and a razor lay crossed.".to_string(),
    ]
}

#[test]
fn str_is_a_sample_sentence() {
    for _ in 0..50 {
        assert!(sentences().contains(&Gen::str()));
    }
}

#[test]
fn str_gives_more_than_one_sentence() {
    let first = Gen::str();
    assert!((0..500).any(|_| Gen::str() != first));
}

#[test]
fn bool_gives_both_booleans() {
    assert!((0..500).any(|_| Gen::bool()));
    assert!((0..500).any(|_| !Gen::bool()));
}

#[test]
fn u64_gives_more_than_one_value() {
    let first = Gen::u64();
    assert!((0..50).any(|_| Gen::u64() != first));
}

#[test]
fn response_answers_a_read_that_found_a_sentence() {
    for _ in 0..50 {
        match Gen::response().outcome {
            Outcome::OfGet { value: Some(text) } => assert!(sentences().contains(&text)),
            other => panic!("unexpected outcome {:?}", other),
        }
    }
}

#[test]
fn generated_response_round_trips() {
    for _ in 0..50 {
        let response = Gen::response();
        assert_eq!(Response::from(response.encode()), response);
    }
}

#[test]
fn outcome_is_never_invalid() {
    let mut kinds = std::collections::HashSet::new();
    for _ in 0..500 {
        match Gen::outcome() {
            Outcome::OfGet { value: Some(text) } => {
                assert!(sentences().contains(&text));
                kinds.insert("get");
            }
            Outcome::OfSet { .. } => {
                kinds.insert("set");
            }
            Outcome::Error { msg } => {
                assert!(sentences().contains(&msg));
                kinds.insert("error");
            }
            other => panic!("unexpected outcome {:?}", other),
        }
    }
    assert_eq!(kinds.len(), 3);
}

#[test]
fn outcome_of_answers_the_command() {
    for _ in 0..20 {
        match Gen::outcome_of(Command::Get { key: "foo".to_string() }) {
            Outcome::OfGet { value: Some(text) } => assert!(sentences().contains(&text)),
            other => panic!("unexpected outcome {:?}", other),
        }
        assert!(matches!(
            Gen::outcome_of(Command::Put { key: "foo".to_string(), value: "bar".to_string() }),
            Outcome::OfSet { .. }
        ));
        match Gen::outcome_of(Command::Invalid { msg: "what".to_string() }) {
            Outcome::Error { msg } => assert!(sentences().contains(&msg)),
            other => panic!("unexpected outcome {:?}", other),
        }
    }
}
