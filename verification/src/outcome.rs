//! How experiments and comparisons report a failed check.
//!
//! An experiment fails when its pre-condition rejects the configuration before the run,
//! or when its post-condition rejects the result after it; a comparison fails when
//! either of its two experiments fails.
use vstd::prelude::*;

verus! {

/// One of the two experiments of a comparison.
#[derive(Debug, Clone, Copy, PartialEq, Eq, Structural)]
pub enum Contender {
    A,
    B,
}

/// The message of an experiment named `name` whose pre-condition failed.
pub open spec fn pre_failure_text(name: Seq<char>) -> Seq<char> {
    "Experiment '"@ + name + "' failed pre-condition check"@
}

/// The message of an experiment named `name` whose post-condition failed.
pub open spec fn post_failure_text(name: Seq<char>) -> Seq<char> {
    "Experiment '"@ + name + "' failed post-condition check"@
}

/// The message of a comparison whose experiment `side` failed with `message`.
pub open spec fn contender_failure_text(side: Contender, message: Seq<char>) -> Seq<char> {
    match side {
        Contender::A => "Experiment A: "@ + message,
        Contender::B => "Experiment B: "@ + message,
    }
}

/// The verdict of a pre-condition check: `Ok` when it passed, else the failure message.
pub fn pre_check_verdict(name: &str, passed: bool) -> (r: Result<(), String>)
    ensures
        passed ==> r is Ok,
        !passed ==> (r matches Err(e) && e@ == pre_failure_text(name@)),
{
    if passed {
        Ok(())
    } else {
        let mut msg = String::from_str("Experiment '");
        msg.append(name);
        msg.append("' failed pre-condition check");
        Err(msg)
    }
}

/// The verdict of a post-condition check: `Ok` when it passed, else the failure message.
pub fn post_check_verdict(name: &str, passed: bool) -> (r: Result<(), String>)
    ensures
        passed ==> r is Ok,
        !passed ==> (r matches Err(e) && e@ == post_failure_text(name@)),
{
    if passed {
        Ok(())
    } else {
        let mut msg = String::from_str("Experiment '");
        msg.append(name);
        msg.append("' failed post-condition check");
        Err(msg)
    }
}

/// The error of a comparison whose experiment `side` failed with `message`.
pub fn contender_failure(side: Contender, message: &str) -> (r: String)
    ensures
        r@ == contender_failure_text(side, message@),
{
    let mut msg = match side {
        Contender::A => String::from_str("Experiment A: "),
        Contender::B => String::from_str("Experiment B: "),
    };
    msg.append(message);
    msg
}

} // verus!
