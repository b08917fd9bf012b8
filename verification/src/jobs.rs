//! Background jobs: the state shown for a job, its display name and the
//! order of the job list.

use vstd::prelude::*;

use crate::text::str_eq;

verus! {

/// Lifecycle state of a background job.
#[derive(Debug, Clone, Copy, PartialEq, Eq, Structural)]
pub enum JobState {
    Idle,
    Working,
    Blocked,
    Done,
    Failed,
    Stopped,
}

/// Group a job is listed under.
#[derive(Debug, Clone, Copy, PartialEq, Eq, Structural)]
pub enum JobGroup {
    ReadyForReview,
    NeedsInput,
    Working,
    Completed,
}

/// A finished job keeps its state whatever the activity signal says.
pub open spec fn is_terminal(s: JobState) -> bool {
    s == JobState::Done || s == JobState::Failed || s == JobState::Stopped
}

/// The state shown for a job: a job that has not finished follows the
/// daemon's activity signal (`active` means working, `blocked` blocked).
pub open spec fn shown_state(s: JobState, tempo: Seq<char>) -> JobState {
    if is_terminal(s) {
        s
    } else if tempo == "active"@ {
        JobState::Working
    } else if tempo == "blocked"@ {
        JobState::Blocked
    } else {
        s
    }
}

/// The state shown for a job with recorded state `state` and activity
/// signal `tempo`.
pub fn effective_job_state(state: JobState, tempo: &str) -> (r: JobState)
    ensures
        r == shown_state(state, tempo@),
{
    let terminal = state == JobState::Done || state == JobState::Failed || state == JobState::Stopped;
    if terminal {
        state
    } else if str_eq(tempo, "active") {
        JobState::Working
    } else if str_eq(tempo, "blocked") {
        JobState::Blocked
    } else {
        state
    }
}

/// The name shown for a job: its name, or its intent when the name is empty.
pub fn job_display_name(name: &str, intent: &str) -> (r: String)
    ensures
        r@ == if name@.len() == 0 {
            intent@
        } else {
            name@
        },
{
    if name.is_empty() {
        String::from_str(intent)
    } else {
        String::from_str(name)
    }
}

/// Rank of a group in the job list: review first, completed last.
pub open spec fn group_rank(g: JobGroup) -> u8 {
    match g {
        JobGroup::ReadyForReview => 0,
        JobGroup::NeedsInput => 1,
        JobGroup::Working => 2,
        JobGroup::Completed => 3,
    }
}

/// The rank of a job group in the list.
pub fn group_order(group: &JobGroup) -> (r: u8)
    ensures
        r == group_rank(*group),
{
    match group {
        JobGroup::ReadyForReview => 0,
        JobGroup::NeedsInput => 1,
        JobGroup::Working => 2,
        JobGroup::Completed => 3,
    }
}

/// Positions `< n` of the jobs of rank `k`, ascending.
pub open spec fn positions_of_rank(groups: Seq<JobGroup>, n: int, k: u8) -> Seq<usize>
    decreases n,
{
    if n <= 0 || n > groups.len() {
        Seq::empty()
    } else if group_rank(groups[n - 1]) == k {
        positions_of_rank(groups, n - 1, k).push((n - 1) as usize)
    } else {
        positions_of_rank(groups, n - 1, k)
    }
}

/// The stable order of the job list by group rank: first the positions of
/// rank 0 in their original order, then those of rank 1, 2 and 3.
pub open spec fn stable_group_order(groups: Seq<JobGroup>) -> Seq<usize> {
    let n = groups.len() as int;
    positions_of_rank(groups, n, 0) + positions_of_rank(groups, n, 1) + positions_of_rank(groups, n, 2)
        + positions_of_rank(groups, n, 3)
}

fn positions_with_rank(groups: &[JobGroup], k: u8, out: &mut Vec<usize>)
    ensures
        final(out)@ == old(out)@ + positions_of_rank(groups@, groups@.len() as int, k),
{
    let ghost start = out@;
    let mut i: usize = 0;
    while i < groups.len()
        invariant
            i <= groups@.len(),
            out@ == start + positions_of_rank(groups@, i as int, k),
        decreases groups@.len() - i,
    {
        if group_order(&groups[i]) == k {
            out.push(i);
            assert(out@ =~= start + positions_of_rank(groups@, i + 1, k));
        } else {
            assert(out@ =~= start + positions_of_rank(groups@, i + 1, k));
        }
        i = i + 1;
    }
}

/// The order in which the jobs with these groups are listed, as positions
/// into the list: sorted by group rank, jobs of one group kept in their
/// original order.
pub fn job_list_order(groups: &[JobGroup]) -> (r: Vec<usize>)
    ensures
        r@ == stable_group_order(groups@),
{
    let mut out: Vec<usize> = Vec::new();
    positions_with_rank(groups, 0, &mut out);
    positions_with_rank(groups, 1, &mut out);
    positions_with_rank(groups, 2, &mut out);
    positions_with_rank(groups, 3, &mut out);
    assert(out@ =~= stable_group_order(groups@));
    out
}

/// A job that a "delete completed jobs" request removes: finished, failed,
/// stopped or idle.
pub open spec fn removable_when_completed(s: JobState) -> bool {
    s == JobState::Done || s == JobState::Failed || s == JobState::Stopped || s == JobState::Idle
}

/// Whether a job in state `s` is removed by a "delete completed jobs"
/// request.
pub fn is_completed_job(s: JobState) -> (r: bool)
    ensures
        r == removable_when_completed(s),
{
    s == JobState::Done || s == JobState::Failed || s == JobState::Stopped || s == JobState::Idle
}

/// What the job tool is asked to do with a job.
#[derive(Debug, Clone, Copy, PartialEq, Eq, Structural)]
pub enum JobAction {
    Stop,
    Remove,
}

/// The sub-command word of an action.
pub open spec fn action_word(a: JobAction) -> Seq<char> {
    match a {
        JobAction::Stop => "stop"@,
        JobAction::Remove => "rm"@,
    }
}

/// Number of leading characters of a job id the job tool is given.
pub const JOB_ID_PREFIX_CHARS: usize = 8;

/// Message of the error for an empty job id.
pub open spec fn empty_job_id_text() -> Seq<char> {
    "job_id must not be empty"@
}

/// The arguments of the job tool for `action` on job `job_id`: the
/// sub-command and the first eight characters of the id. An empty id is
/// refused.
pub fn job_command_args(action: JobAction, job_id: &str) -> (r: Result<Vec<String>, crate::error::ApiError>)
    ensures
        job_id@.len() == 0 <==> r is Err,
        r matches Err(e) ==> e.code == crate::error::ApiErrorCode::ValidationError && e.message@ == empty_job_id_text(),
        r matches Ok(v) ==> v@.len() == 2 && v@[0]@ == action_word(action) && v@[1]@ == (if job_id@.len()
            <= JOB_ID_PREFIX_CHARS {
            job_id@
        } else {
            job_id@.take(JOB_ID_PREFIX_CHARS as int)
        }),
{
    let cs = crate::text::chars_of(job_id);
    if cs.len() == 0 {
        return Err(crate::error::ApiError::validation(String::from_str("job_id must not be empty")));
    }
    let keep: usize = if cs.len() <= JOB_ID_PREFIX_CHARS {
        cs.len()
    } else {
        JOB_ID_PREFIX_CHARS
    };
    let short = crate::text::string_from_chars(&crate::text::slice_range(&cs, 0, keep));
    proof {
        assert(short@ =~= if job_id@.len() <= JOB_ID_PREFIX_CHARS {
            job_id@
        } else {
            job_id@.take(JOB_ID_PREFIX_CHARS as int)
        });
    }
    let word = match action {
        JobAction::Stop => String::from_str("stop"),
        JobAction::Remove => String::from_str("rm"),
    };
    let mut v: Vec<String> = Vec::new();
    v.push(word);
    v.push(short);
    Ok(v)
}

} // verus!
