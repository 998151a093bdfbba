//! Generators of sample values for tests.
//!
//! The values are drawn at random, so a contract here says what holds of
//! every draw, never which value comes.

use crate::protocol::request::Command;
use crate::protocol::response::{Outcome, OutcomeView, Response};
use rand::seq::SliceRandom;
use rand::Rng;
use vstd::prelude::*;

verus! {

/// Picks one of `items` with `SliceRandom::choose` on the thread's generator.
///
/// Trusted: on a slice that is not empty, `choose` returns a reference to one
/// of its elements. Which one is left open.
#[verifier::external_body]
fn pick<T>(items: &Vec<T>) -> (chosen: &T)
    requires
        items.len() > 0,
    ensures
        items@.contains(*chosen),
{
    items.choose(&mut rand::thread_rng()).unwrap()
}

/// The sentences that sample texts are drawn from.
pub open spec fn sentences() -> Seq<Seq<char>> {
    seq![
        "Twas brillig and the slythy toves did gyre and gimble in the wabe."@,
        "A screaming comes across the sky."@,
        "It has happened before, but there is nothing to compare it to now."@,
        "Stately, plump Buck Mulligan came from the stairhead"@,
        "bearing a bowl of lather on which a mirror and a razor lay crossed."@,
    ]
}

/// Whether `text` is one of the sample sentences.
pub open spec fn is_sentence(text: Seq<char>) -> bool {
    exists|i: int| 0 <= i < sentences().len() && sentences()[i] == text
}

/// Whether `outcome` is one that a well-behaved peer may send with sample
/// values: a read that found a sample sentence, a write, or an error that
/// reports a sample sentence.
pub open spec fn is_sample_outcome(outcome: OutcomeView) -> bool {
    match outcome {
        OutcomeView::OfGet { value: Some(text) } => is_sentence(text),
        OutcomeView::OfGet { value: None } => false,
        OutcomeView::OfSet { .. } => true,
        OutcomeView::Error { msg } => is_sentence(msg),
        OutcomeView::Invalid { .. } => false,
    }
}

/// The generators.
pub struct Gen {}

impl Gen {
    /// Any `u64`, drawn with `Rng::gen` from the thread's generator. Nothing
    /// is promised of the value.
    #[verifier::external_body]
    pub fn u64() -> u64 {
        let mut rng = rand::thread_rng();
        rng.gen::<u64>()
    }

    /// One of the sample sentences.
    pub fn str() -> (text: String)
        ensures
            is_sentence(text@),
    {
        let mut strs: Vec<String> = Vec::new();
        strs.push(
            String::from_str("Twas brillig and the slythy toves did gyre and gimble in the wabe."),
        );
        strs.push(String::from_str("A screaming comes across the sky."));
        strs.push(
            String::from_str("It has happened before, but there is nothing to compare it to now."),
        );
        strs.push(String::from_str("Stately, plump Buck Mulligan came from the stairhead"));
        strs.push(
            String::from_str("bearing a bowl of lather on which a mirror and a razor lay crossed."),
        );
        let chosen = pick(&strs);
        proof {
            let i = choose|i: int| 0 <= i < strs.len() && strs@[i] == *chosen;
            assert(sentences()[i] == chosen@);
        }
        chosen.clone()
    }

    /// Either boolean.
    pub fn bool() -> bool {
        let mut bools: Vec<bool> = Vec::new();
        bools.push(true);
        bools.push(false);
        *pick(&bools)
    }

    /// A response to a read that found a sample sentence, under any id.
    pub fn response() -> (response: Response)
        ensures
            response@.outcome matches OutcomeView::OfGet { value: Some(text) } && is_sentence(text),
    {
        Response { id: Gen::u64(), outcome: Outcome::OfGet { value: Some(Gen::str()) } }
    }

    /// An outcome that a well-behaved peer may send: never `Invalid`.
    pub fn outcome() -> (outcome: Outcome)
        ensures
            is_sample_outcome(outcome@),
    {
        let mut outcomes: Vec<Outcome> = Vec::new();
        outcomes.push(Outcome::OfGet { value: Some(Gen::str()) });
        outcomes.push(Outcome::OfSet { was_modified: Gen::bool() });
        outcomes.push(Outcome::Error { msg: Gen::str() });
        let chosen = pick(&outcomes);
        proof {
            let i = choose|i: int| 0 <= i < outcomes.len() && outcomes@[i] == *chosen;
            assert(is_sample_outcome(outcomes@[i]@));
        }
        chosen.clone()
    }

    /// The outcome that answers `cmd`, with sample values: a read answers a
    /// `Get`, a write answers a `Put`, and an error answers anything else.
    pub fn outcome_of(cmd: Command) -> (outcome: Outcome)
        ensures
            match cmd {
                Command::Get { .. } => outcome@ matches OutcomeView::OfGet { value: Some(text) }
                    && is_sentence(text),
                Command::Put { .. } => outcome@ is OfSet,
                _ => outcome@ matches OutcomeView::Error { msg } && is_sentence(msg),
            },
    {
        match cmd {
            Command::Get { .. } => Outcome::OfGet { value: Some(Gen::str()) },
            Command::Put { .. } => Outcome::OfSet { was_modified: Gen::bool() },
            _ => Outcome::Error { msg: Gen::str() },
        }
    }
}

} // verus!
