//! Ending a process safely: the identity shown to the user is checked again against the
//! live process right before it is terminated, so a reused id or a stale view never ends
//! the wrong process.
use vstd::prelude::*;
use crate::text::{concat_str, decimal, push_decimal, str_eq, trim_spec, trim_str};

verus! {

/// Why terminating process `pid` is refused, if it is: it is this program itself; no
/// process with that id is running; the running one started at another time than the one
/// shown; or it has another name than the one shown (when a name was given).
pub open spec fn termination_refusal(
    pid: u64,
    expected_start_time: u64,
    expected_name: Option<Seq<char>>,
    own_pid: u64,
    live: Option<(u64, Seq<char>)>,
) -> Option<Seq<char>> {
    if pid == own_pid {
        Some("Refusing to terminate Windash itself."@)
    } else {
        match live {
            None => Some("Process "@ + decimal(pid as nat) + " is no longer running."@),
            Some(l) => if l.0 != expected_start_time {
                Some("Process "@ + decimal(pid as nat) + " was restarted or its id reused (start time differs); not terminated."@)
            } else if (expected_name matches Some(n) && l.1 != n) {
                Some("Process "@ + decimal(pid as nat) + " is not the expected program (name differs); not terminated."@)
            } else {
                None
            },
        }
    }
}

fn pid_message(pid: u64, tail: &str) -> (r: String)
    ensures
        r@ == "Process "@ + decimal(pid as nat) + tail@,
{
    let mut s = "Process ".to_owned();
    push_decimal(&mut s, pid);
    s.append(tail);
    s
}

/// Checks, right before ending process `pid`, that it is still the process the user saw:
/// not this program (`own_pid`), still running (`live` holds its start time and name), with
/// the expected start time and, when given, the expected name. `Ok` exactly when all hold;
/// otherwise the reason.
pub fn termination_allowed(
    pid: u64,
    expected_start_time: u64,
    expected_name: Option<&str>,
    own_pid: u64,
    live: Option<(u64, String)>,
) -> (r: Result<(), String>)
    ensures
        r is Ok <==> (pid != own_pid && (live matches Some(l) && l.0 == expected_start_time && (
        expected_name matches Some(n) ==> l.1@ == n@))),
        match termination_refusal(
            pid,
            expected_start_time,
            match expected_name {
                Some(n) => Some(n@),
                None => None,
            },
            own_pid,
            match live {
                Some(l) => Some((l.0, l.1@)),
                None => None,
            },
        ) {
            Some(m) => r matches Err(e) && e@ == m,
            None => r is Ok,
        },
{
    if pid == own_pid {
        return Err("Refusing to terminate Windash itself.".to_owned());
    }
    match live {
        None => Err(pid_message(pid, " is no longer running.")),
        Some((start, name)) => {
            if start != expected_start_time {
                return Err(
                    pid_message(
                        pid,
                        " was restarted or its id reused (start time differs); not terminated.",
                    ),
                );
            }
            match expected_name {
                Some(n) => {
                    if !str_eq(name.as_str(), n) {
                        return Err(
                            pid_message(
                                pid,
                                " is not the expected program (name differs); not terminated.",
                            ),
                        );
                    }
                },
                None => {},
            }
            Ok(())
        },
    }
}

/// The message when the task killer failed: the process id, a hint about permissions, and
/// the killer's error output without surrounding white space.
pub fn termination_failure_message(pid: u64, stderr: &str) -> (r: String)
    ensures
        r@ == "Unable to terminate process "@ + decimal(pid as nat)
            + ". Administrator permission may be required. "@ + trim_spec(stderr@),
{
    let mut s = "Unable to terminate process ".to_owned();
    push_decimal(&mut s, pid);
    s.append(". Administrator permission may be required. ");
    let (t, _) = trim_str(stderr);
    concat_str(s.as_str(), t.as_str())
}

} // verus!
