//! What the ends of programs and workers mean: nothing that failed passes for a success, and
//! what is reported names it.

use crate::process;
use crate::text_laws;
use vstd::prelude::*;

verus! {

/// A program that succeeded is a success, whatever else is known of it, and one that did not
/// is reported by its name and status, and with what it wrote about it, without the white
/// space around that.
pub proof fn law_failed_programs_are_named(
    program: Seq<char>,
    status: Seq<char>,
    before: Seq<char>,
    report: Seq<char>,
    after: Seq<char>,
)
    requires
        text_laws::is_blank(before),
        text_laws::is_trimmed(report),
        text_laws::is_blank(after),
    ensures
        process::program_result(program, true, status) == Ok::<(), Seq<char>>(()),
        process::reported_result(program, true, status, before + report + after) == Ok::<
            (),
            Seq<char>,
        >(()),
        process::program_result(program, false, status) == Err::<(), Seq<char>>(
            program + " exited with "@ + status,
        ),
        process::reported_result(program, false, status, before + report + after) == Err::<
            (),
            Seq<char>,
        >(program + " exited with "@ + status + "; "@ + report),
{
    text_laws::law_trim_takes_off_what_was_put_around(before, report, after);
}

/// Two workers have succeeded exactly where both came to an end and neither returned an error.
/// A worker that panicked comes before an error, and the first worker before the second.
pub proof fn law_workers(
    first: Option<Result<(), Seq<char>>>,
    first_panicked: Seq<char>,
    second: Option<Result<(), Seq<char>>>,
    second_panicked: Seq<char>,
)
    ensures
        ({
            let result = process::workers_result(first, first_panicked, second, second_panicked);
            &&& result is Ok <==> first is Some && first->0 is Ok && second is Some && second->0 is Ok
            &&& first is None ==> result == Err::<(), Seq<char>>(first_panicked)
            &&& first is Some && second is None ==> result == Err::<(), Seq<char>>(second_panicked)
            &&& first matches Some(Err(message)) ==> second is Some ==> result == Err::<
                (),
                Seq<char>,
            >(message)
            &&& first is Some && first->0 is Ok ==> (second matches Some(Err(message)) ==> result
                == Err::<(), Seq<char>>(message))
        }),
{
}

/// The end of a worker is known from what it returned.
pub proof fn law_worker_end(message: String)
    ensures
        process::worker_text(None) is None,
        process::worker_text(Some(Ok(()))) == Some(Ok::<(), Seq<char>>(())),
        process::worker_text(Some(Err(message))) == Some(Err::<(), Seq<char>>(message@)),
{
}

} // verus!
