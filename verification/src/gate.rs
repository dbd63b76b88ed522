//! The completion gate: file discovery for a project may only proceed once
//! every sample of the project has finished remote processing, unless the
//! caller explicitly bypasses that requirement — and a bypass is always
//! surfaced as a warning, never silenced.

use vstd::prelude::*;
use crate::api::{Sample, SampleView};
use crate::Error;

verus! {

/// A sample counts as complete exactly when its status is the literal
/// `"Complete"`.
pub open spec fn is_complete(s: SampleView) -> bool {
    s.status == "Complete"@
}

/// Partition samples into `(complete, incomplete)` by status, keeping the
/// relative order on both sides.
pub fn partition(samples: Vec<Sample>) -> (r: (Vec<Sample>, Vec<Sample>))
    ensures
        r.0@.map_values(|s: Sample| s@) == samples@.map_values(|s: Sample| s@).filter(
            |s: SampleView| is_complete(s),
        ),
        r.1@.map_values(|s: Sample| s@) == samples@.map_values(|s: Sample| s@).filter(
            |s: SampleView| !is_complete(s),
        ),
{
    let complete_status: String = "Complete".to_owned();
    let mut complete: Vec<Sample> = Vec::new();
    let mut incomplete: Vec<Sample> = Vec::new();
    let mut rest = samples;
    let ghost all = rest@.map_values(|s: Sample| s@);
    proof {
        assert(all.take(0) =~= Seq::<SampleView>::empty());
        reveal(Seq::filter);
    }
    while rest.len() > 0
        invariant
            complete_status@ == "Complete"@,
            rest@.len() <= all.len(),
            rest@.map_values(|s: Sample| s@) == all.skip(all.len() - rest@.len()),
            complete@.map_values(|s: Sample| s@) == all.take(all.len() - rest@.len()).filter(
                |s: SampleView| is_complete(s),
            ),
            incomplete@.map_values(|s: Sample| s@) == all.take(all.len() - rest@.len()).filter(
                |s: SampleView| !is_complete(s),
            ),
        decreases rest@.len(),
    {
        let ghost k = all.len() - rest@.len();
        let ghost rest_before = rest@;
        let ghost complete_before = complete@;
        let ghost incomplete_before = incomplete@;
        let sample = rest.remove(0);
        proof {
            assert(rest_before.map_values(|s: Sample| s@)[0] == all.skip(k as int)[0]);
            assert(sample@ == all[k as int]);
            assert(rest@ =~= rest_before.skip(1));
            assert forall|j: int| 0 <= j < rest@.len() implies rest@.map_values(|s: Sample| s@)[j]
                == #[trigger] all.skip(k as int + 1)[j] by {
                assert(rest@[j] == rest_before[j + 1]);
                assert(rest_before.map_values(|s: Sample| s@)[j + 1] == all.skip(k as int)[j + 1]);
            }
            assert(rest@.map_values(|s: Sample| s@) =~= all.skip(k as int + 1));
        }
        let finished = sample.status == complete_status;
        if finished {
            complete.push(sample);
        } else {
            incomplete.push(sample);
        }
        proof {
            reveal(Seq::filter);
            let taken = all.take(k as int + 1);
            assert(taken.drop_last() =~= all.take(k as int));
            assert(taken.last() == all[k as int]);
            if finished {
                assert(complete@.map_values(|s: Sample| s@) =~= complete_before.map_values(
                    |s: Sample| s@,
                ).push(all[k as int]));
                assert(incomplete@ == incomplete_before);
            } else {
                assert(incomplete@.map_values(|s: Sample| s@) =~= incomplete_before.map_values(
                    |s: Sample| s@,
                ).push(all[k as int]));
                assert(complete@ == complete_before);
            }
        }
    }
    proof {
        assert(all.take(all.len() as int) =~= all);
    }
    (complete, incomplete)
}

/// How a project may proceed to file discovery: with every sample
/// finished, or under an explicit bypass that is surfaced as a warning.
#[derive(Debug, PartialEq, Eq, Structural)]
pub enum CompletionOutcome {
    AllComplete,
    BypassedIncomplete { still_processing: usize },
}

/// Enforce the all-samples-complete precondition. With `skip_check` the
/// gate lets an incomplete project through, but only as an explicit
/// warning-bearing outcome; without it, an incomplete project is an error
/// carrying the number of samples still processing.
pub fn completion_gate(incomplete: usize, skip_check: bool) -> (r: Result<CompletionOutcome, Error>)
    ensures
        r is Ok <==> incomplete == 0 || skip_check,
        incomplete == 0 ==> r == Ok::<CompletionOutcome, Error>(CompletionOutcome::AllComplete),
        incomplete > 0 && skip_check ==> r == Ok::<CompletionOutcome, Error>(
            CompletionOutcome::BypassedIncomplete { still_processing: incomplete },
        ),
        incomplete > 0 && !skip_check ==> (r matches Err(e) && e matches Error::Incomplete {
            still_processing,
        } && still_processing == incomplete),
{
    if incomplete == 0 {
        Ok(CompletionOutcome::AllComplete)
    } else if skip_check {
        Ok(CompletionOutcome::BypassedIncomplete { still_processing: incomplete })
    } else {
        Err(Error::Incomplete { still_processing: incomplete })
    }
}

} // verus!
