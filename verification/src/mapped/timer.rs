//! A named stopwatch whose result goes to the log.

use vstd::prelude::*;
use vstd::string::StringExecFns;
use crate::text::{decimal, push_decimal};

verus! {

#[verifier::external_type_specification]
#[verifier::external_body]
pub struct ExInstant(std::time::Instant);

/// Calls `std::time::Instant::now`. Nothing is stated of the instant: it
/// is the clock's reading.
#[verifier::external_body]
fn instant_now() -> std::time::Instant {
    std::time::Instant::now()
}

/// Calls `Instant::elapsed` and `Duration::as_millis`: the whole
/// milliseconds since `start`. Nothing is stated of the value: it depends
/// on the clock.
#[verifier::external_body]
fn millis_since(start: &std::time::Instant) -> u128 {
    start.elapsed().as_millis()
}

/// A stopwatch with a label, started when it was made.
pub struct Timer {
    label: &'static str,
    start: std::time::Instant,
}

/// The message that finishing a timer logs.
pub open spec fn finish_message(label: Seq<char>, millis: nat) -> Seq<char> {
    "timer: "@ + label + " took "@ + decimal(millis) + " ms"@
}

impl Timer {
    /// The label of the timer.
    pub closed spec fn name(&self) -> Seq<char> {
        self.label@
    }

    /// Starts a timer now.
    pub fn start(label: &'static str) -> (t: Timer)
        ensures
            t.name() == label@,
    {
        Timer { label, start: instant_now() }
    }

    /// Whole milliseconds since the timer started.
    pub fn elapsed_ms(&self) -> u128 {
        millis_since(&self.start)
    }

    /// The message to log for `millis` elapsed milliseconds.
    pub fn message(&self, millis: u128) -> (s: String)
        ensures
            s@ == finish_message(self.name(), millis as nat),
    {
        let mut s = String::from_str("timer: ");
        s.append(self.label);
        s.append(" took ");
        push_decimal(&mut s, millis);
        s.append(" ms");
        s
    }

    /// The message that finishing the timer logs, with the milliseconds
    /// elapsed by now.
    pub fn finish(&self) -> (s: String)
        ensures
            exists|millis: u128| s@ == finish_message(self.name(), millis as nat),
    {
        let millis = self.elapsed_ms();
        self.message(millis)
    }
}

} // verus!
