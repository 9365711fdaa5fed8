//! Failure accounting of the upstream fan-out.
//!
//! The dispatcher sends one POST per tenant and folds the outcomes into a
//! failure count: a `2xx` answer is a success, a `4xx` answer counts as
//! dropped-but-not-our-fault, anything else — another status, a transport
//! error, a failed task — is a failure.  The request ends with `200` and
//! body `"0"` when nothing failed, else with `500` and the decimal count.

use vstd::prelude::*;
use vstd::string::StringExecFns;

verus! {

/// The indices under which the proxy keeps its counters.
pub enum ForwardingStatistics {
    NumSeries,
    NumMetadata,
    NumLabels,
    TenantsDetected,
    TotalRequests,
    NumFailures,
    ProcessingTime,
}

impl ForwardingStatistics {
    /// The counter slot of this statistic.
    pub fn index(&self) -> (r: u8)
        ensures
            r == match self {
                ForwardingStatistics::NumSeries => 0u8,
                ForwardingStatistics::NumMetadata => 1u8,
                ForwardingStatistics::NumLabels => 2u8,
                ForwardingStatistics::TenantsDetected => 3u8,
                ForwardingStatistics::TotalRequests => 4u8,
                ForwardingStatistics::NumFailures => 5u8,
                ForwardingStatistics::ProcessingTime => 6u8,
            },
    {
        match self {
            ForwardingStatistics::NumSeries => 0,
            ForwardingStatistics::NumMetadata => 1,
            ForwardingStatistics::NumLabels => 2,
            ForwardingStatistics::TenantsDetected => 3,
            ForwardingStatistics::TotalRequests => 4,
            ForwardingStatistics::NumFailures => 5,
            ForwardingStatistics::ProcessingTime => 6,
        }
    }
}

/// The tenants eligible for metrics ingestion, as the ingestion-tenant
/// resource lists them.
#[derive(Debug, PartialEq, Eq)]
pub struct MetricsIngestionTenantSpec {
    pub tenants: Vec<String>,
    pub description: Option<String>,
}

/// One upstream attempt as the dispatcher sees it: `Ok` carries the HTTP
/// status of an answer; `Err` stands for a transport or task failure.
pub open spec fn spec_is_failure(outcome: Result<u16, u16>) -> bool {
    match outcome {
        Ok(status) => !(200 <= status < 300 || 400 <= status < 500),
        Err(_) => true,
    }
}

/// Folds one upstream outcome into the failure count: `2xx` and `4xx`
/// answers leave it, every other answer and every transport error raises
/// it by one.
pub fn accumulate_errors(acc: u16, result: Result<u16, u16>) -> (r: u16)
    requires
        acc < u16::MAX,
    ensures
        r == acc + (
        if spec_is_failure(result) {
            1int
        } else {
            0int
        }),
{
    match result {
        Ok(status) => {
            if (200 <= status && status < 300) || (400 <= status && status < 500) {
                acc
            } else {
                acc + 1
            }
        },
        Err(_) => acc + 1,
    }
}

/// How many of the outcomes are failures.
pub open spec fn spec_failure_count(outcomes: Seq<Result<u16, u16>>) -> nat
    decreases outcomes.len(),
{
    if outcomes.len() == 0 {
        0
    } else {
        spec_failure_count(outcomes.drop_last()) + (
        if spec_is_failure(outcomes.last()) {
            1nat
        } else {
            0nat
        })
    }
}

/// Folds all upstream outcomes into the failure count.
#[verifier::loop_isolation(false)]
pub fn count_failures(outcomes: &Vec<Result<u16, u16>>) -> (r: u16)
    requires
        outcomes@.len() <= u16::MAX,
    ensures
        r as nat == spec_failure_count(outcomes@),
{
    let mut acc: u16 = 0;
    let mut i: usize = 0;
    while i < outcomes.len()
        invariant
            i <= outcomes@.len(),
            acc as nat == spec_failure_count(outcomes@.take(i as int)),
            acc <= i,
        decreases outcomes@.len() - i,
    {
        proof {
            assert(outcomes@.take(i + 1).drop_last() =~= outcomes@.take(i as int));
            assert(outcomes@.take(i + 1).last() == outcomes@[i as int]);
        }
        acc = accumulate_errors(acc, outcomes[i]);
        i += 1;
    }
    proof {
        assert(outcomes@.take(outcomes@.len() as int) =~= outcomes@);
    }
    acc
}

/// The HTTP status the proxy answers with: `200` when nothing failed,
/// `500` otherwise.
pub fn response_status(num_of_failures: u16) -> (r: u16)
    ensures
        r == (
        if num_of_failures == 0 {
            200u16
        } else {
            500u16
        }),
{
    if num_of_failures == 0 {
        200
    } else {
        500
    }
}

/// The decimal digit of a value below ten.
pub open spec fn dec_digit(n: nat) -> char {
    if n == 0 {
        '0'
    } else if n == 1 {
        '1'
    } else if n == 2 {
        '2'
    } else if n == 3 {
        '3'
    } else if n == 4 {
        '4'
    } else if n == 5 {
        '5'
    } else if n == 6 {
        '6'
    } else if n == 7 {
        '7'
    } else if n == 8 {
        '8'
    } else {
        '9'
    }
}

/// The decimal spelling of a number, most significant digit first.
pub open spec fn spec_decimal(n: nat) -> Seq<char>
    decreases n,
{
    if n < 10 {
        seq![dec_digit(n)]
    } else {
        spec_decimal(n / 10).push(dec_digit(n % 10))
    }
}

fn dec_digit_str(n: u64) -> (r: &'static str)
    requires
        n < 10,
    ensures
        r@ == seq![dec_digit(n as nat)],
{
    proof {
        reveal_strlit("0");
        reveal_strlit("1");
        reveal_strlit("2");
        reveal_strlit("3");
        reveal_strlit("4");
        reveal_strlit("5");
        reveal_strlit("6");
        reveal_strlit("7");
        reveal_strlit("8");
        reveal_strlit("9");
    }
    if n == 0 {
        "0"
    } else if n == 1 {
        "1"
    } else if n == 2 {
        "2"
    } else if n == 3 {
        "3"
    } else if n == 4 {
        "4"
    } else if n == 5 {
        "5"
    } else if n == 6 {
        "6"
    } else if n == 7 {
        "7"
    } else if n == 8 {
        "8"
    } else {
        "9"
    }
}

/// The decimal spelling of a count, for the response body.
pub fn decimal_string(n: u64) -> (r: String)
    ensures
        r@ == spec_decimal(n as nat),
    decreases n,
{
    if n < 10 {
        String::from_str(dec_digit_str(n))
    } else {
        let mut r = decimal_string(n / 10);
        r.append(dec_digit_str(n % 10));
        proof {
            assert(r@ =~= spec_decimal(n as nat));
        }
        r
    }
}

} // verus!
