//! Container healthcheck settings and their Docker Engine JSON form.

use vstd::prelude::*;
use vstd::string::*;
use std::time::Duration;
use crate::duration::{duration_nanos, duration_to_nanos_i64};
use crate::json::{json_array_text, push_json_array, string_views};
use crate::text::{decimal, push_decimal};

verus! {

broadcast use vstd::string::group_string_axioms;

/// How a container checks its own health.
#[derive(Debug, Clone, PartialEq, Eq)]
pub struct Healthcheck {
    pub test: Vec<String>,
    pub interval: Option<Duration>,
    pub timeout: Option<Duration>,
    pub retries: Option<u64>,
    pub start_period: Option<Duration>,
    pub start_interval: Option<Duration>,
}

/// A duration in nanoseconds as Docker takes it: saturated at `i64::MAX`.
pub open spec fn docker_nanos(d: Duration) -> nat {
    if duration_nanos(d) > i64::MAX as nat {
        i64::MAX as nat
    } else {
        duration_nanos(d)
    }
}

/// `,"<key>":<nanoseconds>` for a set duration, nothing otherwise.
pub open spec fn duration_member(key: Seq<char>, d: Option<Duration>) -> Seq<char> {
    match d {
        Some(d) => seq![','] + key + seq![':'] + decimal(docker_nanos(d)),
        None => Seq::empty(),
    }
}

/// The test command views.
pub open spec fn test_views(h: Healthcheck) -> Seq<Seq<char>> {
    string_views(h.test@)
}

/// Does the healthcheck set nothing at all (and so inherit the image's)?
pub open spec fn inherits_image(h: Healthcheck) -> bool {
    h.test@.len() == 0 && h.interval is None && h.timeout is None && h.retries is None
        && h.start_period is None && h.start_interval is None
}

/// The `Healthcheck` object of a Docker create request.
pub open spec fn docker_json_text(h: Healthcheck) -> Seq<char> {
    "{\"Test\":"@ + json_array_text(test_views(h)) + duration_member("\"Interval\""@, h.interval)
        + duration_member("\"Timeout\""@, h.timeout) + match h.retries {
        Some(n) => ",\"Retries\":"@ + decimal(n as nat),
        None => Seq::empty(),
    } + duration_member("\"StartPeriod\""@, h.start_period) + duration_member(
        "\"StartInterval\""@,
        h.start_interval,
    ) + seq!['}']
}

fn push_duration_member(out: &mut String, key: &str, d: Option<Duration>)
    ensures
        final(out)@ == old(out)@ + duration_member(key@, d),
{
    match d {
        Some(d) => {
            out.append(",");
            out.append(key);
            out.append(":");
            let n: i64 = duration_to_nanos_i64(d);
            push_decimal(out, n as u128);
            proof {
                reveal_strlit(",");
                reveal_strlit(":");
                assert(final(out)@ =~= old(out)@ + duration_member(key@, Some(d)));
            }
        },
        None => {
            assert(final(out)@ =~= old(out)@ + duration_member(key@, d));
        },
    }
}

fn unset(test: Vec<String>) -> (r: Healthcheck)
    ensures
        r.test == test,
        r.interval is None,
        r.timeout is None,
        r.retries is None,
        r.start_period is None,
        r.start_interval is None,
{
    Healthcheck {
        test,
        interval: None,
        timeout: None,
        retries: None,
        start_period: None,
        start_interval: None,
    }
}

impl Healthcheck {
    /// Turns the healthcheck off: `Test = ["NONE"]`.
    pub fn none() -> (r: Healthcheck)
        ensures
            test_views(r) == seq!["NONE"@],
            r.interval is None && r.timeout is None && r.retries is None,
            r.start_period is None && r.start_interval is None,
    {
        let mut test: Vec<String> = Vec::new();
        test.push(String::from_str("NONE"));
        let r = unset(test);
        assert(test_views(r) =~= seq!["NONE"@]);
        r
    }

    /// No test of its own (`Test = []`): the image's healthcheck applies.
    pub fn empty() -> (r: Healthcheck)
        ensures
            test_views(r) == Seq::<Seq<char>>::empty(),
            r.interval is None && r.timeout is None && r.retries is None,
            r.start_period is None && r.start_interval is None,
    {
        let r = unset(Vec::new());
        assert(test_views(r) =~= Seq::<Seq<char>>::empty());
        r
    }

    /// A probe run through the shell: `Test = ["CMD-SHELL", cmd]`.
    pub fn cmd_shell(cmd: &str) -> (r: Healthcheck)
        ensures
            test_views(r) == seq!["CMD-SHELL"@, cmd@],
            r.interval is None && r.timeout is None && r.retries is None,
            r.start_period is None && r.start_interval is None,
    {
        let mut test: Vec<String> = Vec::new();
        test.push(String::from_str("CMD-SHELL"));
        test.push(String::from_str(cmd));
        let r = unset(test);
        assert(test_views(r) =~= seq!["CMD-SHELL"@, cmd@]);
        r
    }

    /// A probe run directly: `Test = ["CMD", ..cmd]`.
    pub fn cmd<const N: usize>(cmd: [&str; N]) -> (r: Healthcheck)
        ensures
            test_views(r) == seq!["CMD"@] + cmd@.map_values(|s: &str| s@),
            r.interval is None && r.timeout is None && r.retries is None,
            r.start_period is None && r.start_interval is None,
    {
        let mut test: Vec<String> = Vec::new();
        test.push(String::from_str("CMD"));
        let mut i: usize = 0;
        while i < N
            invariant
                i <= N,
                cmd@.len() == N,
                string_views(test@) == seq!["CMD"@] + cmd@.take(i as int).map_values(
                    |s: &str| s@,
                ),
            decreases N - i,
        {
            let ghost prev = test@;
            test.push(String::from_str(cmd[i]));
            proof {
                assert(string_views(test@) =~= string_views(prev).push(cmd@[i as int]@));
                assert(cmd@.take(i + 1).map_values(|s: &str| s@) =~= cmd@.take(i as int).map_values(
                    |s: &str| s@,
                ).push(cmd@[i as int]@));
            }
            i += 1;
            proof {
                assert(string_views(test@) =~= seq!["CMD"@] + cmd@.take(i as int).map_values(
                    |s: &str| s@,
                ));
            }
        }
        let r = unset(test);
        assert(cmd@.take(N as int) =~= cmd@);
        r
    }

    /// Sets the probe interval.
    pub fn with_interval(self, interval: Duration) -> (r: Healthcheck)
        ensures
            r == (Healthcheck { interval: Some(interval), ..self }),
    {
        Healthcheck { interval: Some(interval), ..self }
    }

    /// Sets the timeout of one probe.
    pub fn with_timeout(self, timeout: Duration) -> (r: Healthcheck)
        ensures
            r == (Healthcheck { timeout: Some(timeout), ..self }),
    {
        Healthcheck { timeout: Some(timeout), ..self }
    }

    /// Sets how many failures in a row make the container unhealthy.
    pub fn with_retries(self, retries: u64) -> (r: Healthcheck)
        ensures
            r == (Healthcheck { retries: Some(retries), ..self }),
    {
        Healthcheck { retries: Some(retries), ..self }
    }

    /// Sets the start period, during which failures do not count.
    pub fn with_start_period(self, start_period: Duration) -> (r: Healthcheck)
        ensures
            r == (Healthcheck { start_period: Some(start_period), ..self }),
    {
        Healthcheck { start_period: Some(start_period), ..self }
    }

    /// Sets the probe interval during the start period.
    pub fn with_start_interval(self, start_interval: Duration) -> (r: Healthcheck)
        ensures
            r == (Healthcheck { start_interval: Some(start_interval), ..self }),
    {
        Healthcheck { start_interval: Some(start_interval), ..self }
    }

    /// The probe command.
    pub fn test(&self) -> (r: &[String])
        ensures
            r@ == self.test@,
    {
        self.test.as_slice()
    }

    /// The probe interval.
    pub fn interval(&self) -> (r: Option<Duration>)
        ensures
            r == self.interval,
    {
        self.interval
    }

    /// The timeout of one probe.
    pub fn timeout(&self) -> (r: Option<Duration>)
        ensures
            r == self.timeout,
    {
        self.timeout
    }

    /// The retries.
    pub fn retries(&self) -> (r: Option<u64>)
        ensures
            r == self.retries,
    {
        self.retries
    }

    /// The start period.
    pub fn start_period(&self) -> (r: Option<Duration>)
        ensures
            r == self.start_period,
    {
        self.start_period
    }

    /// The probe interval during the start period.
    pub fn start_interval(&self) -> (r: Option<Duration>)
        ensures
            r == self.start_interval,
    {
        self.start_interval
    }

    /// The `Healthcheck` object of a Docker create request, or `None` when
    /// the healthcheck sets nothing and so the key is left out.
    pub fn to_docker_json(&self) -> (r: Option<String>)
        ensures
            inherits_image(*self) ==> r is None,
            !inherits_image(*self) ==> (r matches Some(s) && s@ == docker_json_text(*self)),
    {
        if self.test.len() == 0 && self.interval.is_none() && self.timeout.is_none()
            && self.retries.is_none() && self.start_period.is_none()
            && self.start_interval.is_none() {
            return None;
        }
        let mut json = String::from_str("{\"Test\":");
        push_json_array(&mut json, self.test.as_slice());
        push_duration_member(&mut json, "\"Interval\"", self.interval);
        push_duration_member(&mut json, "\"Timeout\"", self.timeout);
        let ghost before_retries = json@;
        match self.retries {
            Some(n) => {
                json.append(",\"Retries\":");
                push_decimal(&mut json, n as u128);
            },
            None => {},
        }
        let ghost after_retries = json@;
        push_duration_member(&mut json, "\"StartPeriod\"", self.start_period);
        push_duration_member(&mut json, "\"StartInterval\"", self.start_interval);
        json.append("}");
        proof {
            reveal_strlit("}");
            assert(after_retries =~= before_retries + match self.retries {
                Some(n) => ",\"Retries\":"@ + decimal(n as nat),
                None => Seq::<char>::empty(),
            });
            assert(json@ =~= docker_json_text(*self));
        }
        Some(json)
    }
}

} // verus!
