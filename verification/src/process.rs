//! What the end of a child process or of a worker means.

use crate::text;
use crate::utf8;
use vstd::prelude::*;

verus! {

/// The result of a program that ended with the given status.
pub open spec fn program_result(program: Seq<char>, success: bool, status: Seq<char>) -> Result<
    (),
    Seq<char>,
> {
    if success {
        Ok(())
    } else {
        Err(program + " exited with "@ + status)
    }
}

/// Turns the end of a program into a result.
pub fn check_exit(program: &str, success: bool, status: &str) -> (r: Result<(), String>)
    ensures
        text::outcome(r) == program_result(program@, success, status@),
{
    if success {
        Ok(())
    } else {
        Err(String::from_str(program).concat(" exited with ").concat(status))
    }
}

/// The result of a program that ended with the given status and error output.
pub open spec fn reported_result(
    program: Seq<char>,
    success: bool,
    status: Seq<char>,
    report: Seq<char>,
) -> Result<(), Seq<char>> {
    if success {
        Ok(())
    } else {
        Err(program + " exited with "@ + status + "; "@ + text::without_outer_space(report))
    }
}

/// Turns the end of a program, with the text of its error output, into a result.
pub fn check_report(program: &str, success: bool, status: &str, report: &str) -> (r: Result<
    (),
    String,
>)
    ensures
        text::outcome(r) == reported_result(program@, success, status@, report@),
{
    if success {
        Ok(())
    } else {
        Err(
            String::from_str(program).concat(" exited with ").concat(status).concat("; ").concat(
                text::trim(report),
            ),
        )
    }
}

/// Turns the end of a program, with the bytes of its error output, into a result.
pub fn check_output(program: &str, success: bool, status: &str, stderr: &[u8]) -> (r: Result<
    (),
    String,
>)
    ensures
        text::outcome(r) == reported_result(
            program@,
            success,
            status@,
            utf8::lossy_text(stderr@),
        ),
{
    let report = utf8::from_utf8_lossy(stderr);
    check_report(program, success, status, report.as_str())
}

/// The result of a worker that ran to its end, or nothing where it panicked.
pub open spec fn worker_text(end: Option<Result<(), String>>) -> Option<Result<(), Seq<char>>> {
    match end {
        Some(result) => Some(text::outcome(result)),
        None => None,
    }
}

/// The result of two workers that are waited for one after the other. A worker that panicked
/// is reported before an error that one of them returned.
pub open spec fn workers_result(
    first: Option<Result<(), Seq<char>>>,
    first_panicked: Seq<char>,
    second: Option<Result<(), Seq<char>>>,
    second_panicked: Seq<char>,
) -> Result<(), Seq<char>> {
    if first is None {
        Err(first_panicked)
    } else if second is None {
        Err(second_panicked)
    } else if first->0 is Err {
        first->0
    } else {
        second->0
    }
}

/// Turns the ends of two workers into a result.
fn join_workers(
    first: Option<Result<(), String>>,
    first_panicked: &str,
    second: Option<Result<(), String>>,
    second_panicked: &str,
) -> (r: Result<(), String>)
    ensures
        text::outcome(r) == workers_result(
            worker_text(first),
            first_panicked@,
            worker_text(second),
            second_panicked@,
        ),
{
    match first {
        None => Err(String::from_str(first_panicked)),
        Some(first) => match second {
            None => Err(String::from_str(second_panicked)),
            Some(second) => match first {
                Err(message) => Err(message),
                Ok(()) => second,
            },
        },
    }
}

/// The result of a connection whose workers have ended and whose `ssh` has exited.
pub fn connect_result(
    sender: Option<Result<(), String>>,
    receiver: Option<Result<(), String>>,
    success: bool,
    status: &str,
) -> (r: Result<(), String>)
    ensures
        text::outcome(r) == match workers_result(
            worker_text(sender),
            "local clipboard sender panicked"@,
            worker_text(receiver),
            "remote clipboard receiver panicked"@,
        ) {
            Err(message) => Err(message),
            Ok(()) => program_result("ssh"@, success, status@),
        },
{
    match join_workers(
        sender,
        "local clipboard sender panicked",
        receiver,
        "remote clipboard receiver panicked",
    ) {
        Err(message) => Err(message),
        Ok(()) => check_exit("ssh", success, status),
    }
}

/// The result of an agent whose workers have ended.
pub fn agent_result(
    receiver: Option<Result<(), String>>,
    sender: Option<Result<(), String>>,
) -> (r: Result<(), String>)
    ensures
        text::outcome(r) == workers_result(
            worker_text(receiver),
            "agent receiver panicked"@,
            worker_text(sender),
            "agent sender panicked"@,
        ),
{
    join_workers(receiver, "agent receiver panicked", sender, "agent sender panicked")
}

/// The program runs on macOS only.
pub fn require_macos(is_macos: bool) -> (r: Result<(), String>)
    ensures
        text::outcome(r) == if is_macos {
            Ok(())
        } else {
            Err("zync currently supports macOS only"@)
        },
{
    if is_macos {
        Ok(())
    } else {
        Err(String::from_str("zync currently supports macOS only"))
    }
}

} // verus!
