//! What the two ways of running the relay decide around a delivery: where
//! the open issues are listed, what the daemon answers to a pushed event,
//! and what a round of reminders amounts to.

use vstd::prelude::*;
use vstd::string::StringExecFns;
use crate::config::Config;
use crate::delivery::is_success_status;
use crate::error::DeliveryError;

verus! {

/// The address at which the tracker lists the issues of a repository.
pub open spec fn issues_url_spec(repository: Seq<char>) -> Seq<char> {
    "https://api.github.com/repos/"@ + repository + "/issues"@
}

/// The address at which the tracker lists the issues of the configured
/// repository.
pub fn issues_url(config: &Config) -> (url: String)
    ensures
        url@ == issues_url_spec(config.github_repo_identifier@),
{
    let mut url = String::new();
    url.append("https://api.github.com/repos/");
    url.append(config.github_repo_identifier.as_str());
    url.append("/issues");
    url
}

/// The HTTP status with which the daemon answers a pushed event: `200` when
/// the relay succeeded, `500` otherwise.
pub open spec fn relay_status_spec(outcome: Result<(), DeliveryError>) -> u16 {
    if outcome is Ok {
        200
    } else {
        500
    }
}

/// The HTTP status with which the daemon answers a pushed event.
pub fn relay_status(outcome: &Result<(), DeliveryError>) -> (status: u16)
    ensures
        status == relay_status_spec(*outcome),
        is_success_status(status) <==> *outcome is Ok,
{
    match outcome {
        Ok(_) => 200,
        Err(_) => 500,
    }
}

/// How many of the outcomes are successes.
pub open spec fn count_delivered(outcomes: Seq<Result<(), DeliveryError>>) -> int
    decreases outcomes.len(),
{
    if outcomes.len() == 0 {
        0
    } else {
        count_delivered(outcomes.drop_last()) + if outcomes.last() is Ok {
            1int
        } else {
            0int
        }
    }
}

/// What a round of reminders amounts to: for how many issues the reminder
/// was delivered, and for how many it failed.
#[derive(Debug, Clone, Copy, PartialEq, Eq, Structural)]
pub struct BatchReport {
    pub delivered: usize,
    pub failed: usize,
}

/// Sums up a round of reminders, of which each issue's delivery was tried
/// whatever came of the ones before it.
pub fn tally(outcomes: &Vec<Result<(), DeliveryError>>) -> (report: BatchReport)
    ensures
        report.delivered == count_delivered(outcomes@),
        report.delivered + report.failed == outcomes@.len(),
{
    let mut report = BatchReport { delivered: 0, failed: 0 };
    let mut i: usize = 0;
    assert(outcomes@.take(0) =~= Seq::empty());
    while i < outcomes.len()
        invariant
            i <= outcomes.len(),
            report.delivered == count_delivered(outcomes@.take(i as int)),
            report.delivered + report.failed == i,
        decreases outcomes.len() - i,
    {
        assert(outcomes@.take(i + 1).drop_last() =~= outcomes@.take(i as int));
        match outcomes[i] {
            Ok(_) => {
                report.delivered = report.delivered + 1;
            },
            Err(_) => {
                report.failed = report.failed + 1;
            },
        }
        i += 1;
    }
    assert(outcomes@.take(i as int) =~= outcomes@);
    report
}

} // verus!
