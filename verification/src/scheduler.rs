//! Keeping the scheduler in step with the jobs that are written down.
use vstd::prelude::*;
use vstd::string::StringExecFns;

use crate::agent::Incoming;
use crate::cron::{Job, JobView};
use crate::text::{owned, same, views};

verus! {

/// How often the scheduler is brought in step, in seconds.
pub const RECONCILE_S: u64 = 60;

/// What of a job decides how it is scheduled: where any of it changes, the job is scheduled anew.
pub open spec fn mark(job: JobView) -> Seq<char> {
    job.schedule + "|"@ + job.timezone + "|"@ + job.prompt + "|"@ + job.room_id
}

/// What of a job decides how it is scheduled.
pub fn fingerprint(job: &Job) -> (r: String)
    ensures
        r@ == mark(job@),
{
    let mut out = job.schedule.clone();
    out.append("|");
    out.append(job.timezone.as_str());
    out.append("|");
    out.append(job.prompt.as_str());
    out.append("|");
    out.append(job.room_id.as_str());
    out
}

/// A job that is scheduled, by its name and what it was scheduled by.
pub struct Live {
    pub name: String,
    pub fingerprint: String,
}

/// The last enabled job of a name.
pub open spec fn wanted(jobs: Seq<Job>, name: Seq<char>) -> Option<JobView>
    decreases jobs.len(),
{
    if jobs.len() == 0 {
        None
    } else if jobs.last().enabled && jobs.last().name@ == name {
        Some(jobs.last()@)
    } else {
        wanted(jobs.drop_last(), name)
    }
}

/// Whether a scheduled job is still what is wanted.
pub open spec fn current(live: Live, jobs: Seq<Job>) -> bool {
    wanted(jobs, live.name@) matches Some(job) && mark(job) == live.fingerprint@
}

/// The names of the scheduled jobs that are no longer wanted as they are.
pub open spec fn stale_names(live: Seq<Live>, jobs: Seq<Job>) -> Seq<Seq<char>>
    decreases live.len(),
{
    if live.len() == 0 {
        Seq::empty()
    } else if current(live.last(), jobs) {
        stale_names(live.drop_last(), jobs)
    } else {
        stale_names(live.drop_last(), jobs).push(live.last().name@)
    }
}

/// Whether a job of the given name is scheduled and stays so.
pub open spec fn stays(live: Seq<Live>, jobs: Seq<Job>, name: Seq<char>) -> bool {
    exists|i: int|
        0 <= i < live.len() && (#[trigger] live[i]).name@ == name && current(live[i], jobs)
}

/// Whether the job at an index is the one that its name stands for and has to be scheduled.
pub open spec fn to_schedule(live: Seq<Live>, jobs: Seq<Job>, i: int) -> bool {
    &&& jobs[i].enabled
    &&& forall|j: int|
        i < j < jobs.len() ==> !((#[trigger] jobs[j]).enabled && jobs[j].name@ == jobs[i].name@)
    &&& !stays(live, jobs, jobs[i].name@)
}

/// The indices of the jobs that have to be scheduled, in order.
pub open spec fn missing_indices(live: Seq<Live>, jobs: Seq<Job>, count: int) -> Seq<usize>
    decreases count,
{
    if count <= 0 {
        Seq::empty()
    } else if to_schedule(live, jobs, count - 1) {
        missing_indices(live, jobs, count - 1).push((count - 1) as usize)
    } else {
        missing_indices(live, jobs, count - 1)
    }
}

/// The job that a name stands for.
proof fn lemma_wanted(jobs: Seq<Job>, name: Seq<char>, i: int)
    requires
        0 <= i < jobs.len(),
        jobs[i].enabled,
        jobs[i].name@ == name,
        forall|j: int|
            i < j < jobs.len() ==> !((#[trigger] jobs[j]).enabled && jobs[j].name@ == name),
    ensures
        wanted(jobs, name) == Some(jobs[i]@),
    decreases jobs.len(),
{
    if i < jobs.len() - 1 {
        assert(!(jobs[jobs.len() - 1].enabled && jobs[jobs.len() - 1].name@ == name));
        assert forall|j: int| i < j < jobs.drop_last().len() implies !((
        #[trigger] jobs.drop_last()[j]).enabled && jobs.drop_last()[j].name@ == name) by {
            assert(jobs.drop_last()[j] == jobs[j]);
        }
        lemma_wanted(jobs.drop_last(), name, i);
    }
}

/// Decides whether a scheduled job is still what is wanted.
fn is_current(live: &Live, jobs: &[Job]) -> (r: bool)
    ensures
        r == current(*live, jobs@),
{
    let ghost all = jobs@;
    let mut i: usize = jobs.len();
    assert(all.take(i as int) =~= all);
    while i > 0
        invariant
            i <= all.len(),
            all == jobs@,
            wanted(all, live.name@) == wanted(all.take(i as int), live.name@),
        decreases i,
    {
        assert(all.take(i as int).drop_last() =~= all.take(i - 1));
        assert(all.take(i as int).last() == all[i - 1]);
        i = i - 1;
        if jobs[i].enabled && same(jobs[i].name.as_str(), live.name.as_str()) {
            return same(fingerprint(&jobs[i]).as_str(), live.fingerprint.as_str());
        }
    }
    false
}

/// The names of the scheduled jobs that are no longer wanted as they are: they are taken off.
pub fn stale(live: &[Live], jobs: &[Job]) -> (r: Vec<String>)
    ensures
        views(r@) == stale_names(live@, jobs@),
{
    let ghost all = live@;
    let mut out: Vec<String> = Vec::new();
    assert(all.take(0) =~= Seq::empty());
    assert(views(out@) =~= Seq::empty());
    for i in 0..live.len()
        invariant
            all == live@,
            views(out@) == stale_names(all.take(i as int), jobs@),
    {
        let ghost before = views(out@);
        assert(all.take(i + 1).drop_last() =~= all.take(i as int));
        assert(all.take(i + 1).last() == all[i as int]);
        if !is_current(&live[i], jobs) {
            let name = live[i].name.clone();
            out.push(name);
            assert(views(out@) =~= before.push(name@));
        }
    }
    assert(all.take(live@.len() as int) =~= all);
    out
}

/// Decides whether a job of the given name is scheduled and stays so.
fn does_stay(live: &[Live], jobs: &[Job], name: &str) -> (r: bool)
    ensures
        r == stays(live@, jobs@, name@),
{
    for i in 0..live.len()
        invariant
            forall|j: int|
                0 <= j < i ==> !((#[trigger] live@[j]).name@ == name@ && current(
                    live@[j],
                    jobs@,
                )),
    {
        if same(live[i].name.as_str(), name) && is_current(&live[i], jobs) {
            assert(live@[i as int].name@ == name@);
            return true;
        }
    }
    false
}

/// The jobs that have to be scheduled, by index: those that are wanted and not scheduled as they
/// are, once the stale ones have been taken off. A job that changed is among them.
pub fn missing(live: &[Live], jobs: &[Job]) -> (r: Vec<usize>)
    ensures
        r@ == missing_indices(live@, jobs@, jobs@.len() as int),
{
    let mut out: Vec<usize> = Vec::new();
    for i in 0..jobs.len()
        invariant
            out@ == missing_indices(live@, jobs@, i as int),
    {
        let mut last = jobs[i].enabled;
        for j in i + 1..jobs.len()
            invariant
                i < jobs@.len(),
                last == (jobs@[i as int].enabled && forall|k: int|
                    i < k < j ==> !((#[trigger] jobs@[k]).enabled && jobs@[k].name@
                        == jobs@[i as int].name@)),
        {
            if jobs[j].enabled && same(jobs[j].name.as_str(), jobs[i].name.as_str()) {
                assert(jobs@[j as int].enabled && jobs@[j as int].name@ == jobs@[i as int].name@);
                last = false;
            }
        }
        if last && !does_stay(live, jobs, jobs[i].name.as_str()) {
            out.push(i);
        }
    }
    out
}

/// A job that is wanted is either scheduled as it is, or on the list to be scheduled.
pub proof fn law_every_wanted_job_is_scheduled(live: Seq<Live>, jobs: Seq<Job>, i: int)
    requires
        0 <= i < jobs.len() <= usize::MAX,
        jobs[i].enabled,
        forall|j: int|
            i < j < jobs.len() ==> !((#[trigger] jobs[j]).enabled && jobs[j].name@ == jobs[i].name@),
    ensures
        wanted(jobs, jobs[i].name@) == Some(jobs[i]@),
        stays(live, jobs, jobs[i].name@) || missing_indices(
            live,
            jobs,
            jobs.len() as int,
        ).contains(i as usize),
{
    lemma_wanted(jobs, jobs[i].name@, i);
    if !stays(live, jobs, jobs[i].name@) {
        assert(to_schedule(live, jobs, i));
        lemma_missing(live, jobs, jobs.len() as int, i);
    }
}

/// What has to be scheduled is on the list.
proof fn lemma_missing(live: Seq<Live>, jobs: Seq<Job>, count: int, i: int)
    requires
        0 <= i < count <= jobs.len() <= usize::MAX,
        to_schedule(live, jobs, i),
    ensures
        missing_indices(live, jobs, count).contains(i as usize),
    decreases count,
{
    let before = missing_indices(live, jobs, count - 1);
    if i == count - 1 {
        let list = before.push(i as usize);
        assert(list[list.len() - 1] == i as usize);
    } else {
        lemma_missing(live, jobs, count - 1, i);
        let k = choose|k: int| 0 <= k < before.len() && before[k] == i as usize;
        let list = missing_indices(live, jobs, count);
        assert(list[k] == i as usize);
    }
}

/// A job that has been switched off or deleted is taken off, and one that changed is.
pub proof fn law_an_unwanted_job_is_taken_off(live: Seq<Live>, jobs: Seq<Job>, i: int)
    requires
        0 <= i < live.len(),
        !current(live[i], jobs),
    ensures
        stale_names(live, jobs).contains(live[i].name@),
    decreases live.len(),
{
    let before = stale_names(live.drop_last(), jobs);
    if i == live.len() - 1 {
        let list = stale_names(live, jobs);
        assert(list[list.len() - 1] == live[i].name@);
    } else {
        assert(live.drop_last()[i] == live[i]);
        law_an_unwanted_job_is_taken_off(live.drop_last(), jobs, i);
        let k = choose|k: int| 0 <= k < before.len() && before[k] == live[i].name@;
        assert(stale_names(live, jobs)[k] == live[i].name@);
    }
}

/// What is noted of a run.
pub fn status(failure: Option<String>) -> (r: String)
    ensures
        r@ == (match failure {
            Some(e) => "error: "@ + e@,
            None => "ok"@,
        }),
{
    match failure {
        Some(e) => {
            let mut out = owned("error: ");
            out.append(e.as_str());
            out
        },
        None => owned("ok"),
    }
}

/// The message that a firing job answers.
pub fn run_once<'a>(job: &'a Job) -> (r: Incoming<'a>)
    ensures
        r.room_id@ == job.room_id@,
        r.sender@ == "scheduler"@,
        r.body@ == job.prompt@,
        r.ambient is None,
        r.reply_parent is None,
        r.attachments@.len() == 0,
{
    Incoming {
        room_id: job.room_id.as_str(),
        sender: "scheduler",
        body: job.prompt.as_str(),
        ambient: None,
        reply_parent: None,
        attachments: Vec::new(),
    }
}

/// A job that changes in its schedule, its zone, its prompt or its room, and in nothing else, is marked
/// differently; its name makes no difference, nor does anything else.
pub proof fn law_a_changed_job_is_marked_differently(job: &Job, other: &Job, a: String, b: String)
    requires
        call_ensures(fingerprint, (job,), a),
        call_ensures(fingerprint, (other,), b),
    ensures
        job.timezone@ == other.timezone@ && job.prompt@ == other.prompt@ && job.room_id@
            == other.room_id@ ==> (a@ == b@ <==> job.schedule@ == other.schedule@),
        job.schedule@ == other.schedule@ && job.prompt@ == other.prompt@ && job.room_id@
            == other.room_id@ ==> (a@ == b@ <==> job.timezone@ == other.timezone@),
        job.schedule@ == other.schedule@ && job.timezone@ == other.timezone@ && job.room_id@
            == other.room_id@ ==> (a@ == b@ <==> job.prompt@ == other.prompt@),
        job.schedule@ == other.schedule@ && job.timezone@ == other.timezone@ && job.prompt@
            == other.prompt@ ==> (a@ == b@ <==> job.room_id@ == other.room_id@),
{
    lemma_mark_parts(job@);
    lemma_mark_parts(other@);
    let x = job@;
    let y = other@;
    if x.timezone == y.timezone && x.prompt == y.prompt && x.room_id == y.room_id && a@ == b@ {
        let tail = "|"@ + x.timezone + "|"@ + x.prompt + "|"@ + x.room_id;
        lemma_same_parts(Seq::empty(), x.schedule, y.schedule, tail);
    }
    if x.schedule == y.schedule && x.prompt == y.prompt && x.room_id == y.room_id && a@ == b@ {
        let tail = "|"@ + x.prompt + "|"@ + x.room_id;
        lemma_same_parts(x.schedule + "|"@, x.timezone, y.timezone, tail);
    }
    if x.schedule == y.schedule && x.timezone == y.timezone && x.room_id == y.room_id && a@ == b@ {
        let tail = "|"@ + x.room_id;
        lemma_same_parts(x.schedule + "|"@ + x.timezone + "|"@, x.prompt, y.prompt, tail);
    }
    if x.schedule == y.schedule && x.timezone == y.timezone && x.prompt == y.prompt && a@ == b@ {
        lemma_same_parts(
            x.schedule + "|"@ + x.timezone + "|"@ + x.prompt + "|"@,
            x.room_id,
            y.room_id,
            Seq::empty(),
        );
    }
}

/// The mark of a job, taken apart at each of its fields.
proof fn lemma_mark_parts(job: JobView)
    ensures
        mark(job) == Seq::<char>::empty() + job.schedule + ("|"@ + job.timezone + "|"@ + job.prompt
            + "|"@ + job.room_id),
        mark(job) == job.schedule + "|"@ + job.timezone + ("|"@ + job.prompt + "|"@ + job.room_id),
        mark(job) == job.schedule + "|"@ + job.timezone + "|"@ + job.prompt + ("|"@ + job.room_id),
        mark(job) == job.schedule + "|"@ + job.timezone + "|"@ + job.prompt + "|"@ + job.room_id
            + Seq::<char>::empty(),
{
    let bar = "|"@;
    let a = job.schedule;
    let b = a + bar + job.timezone;
    let c = b + bar + job.prompt;
    assert(c + bar + job.room_id =~= c + (bar + job.room_id));
    assert(b + bar + job.prompt + bar + job.room_id =~= b + (bar + job.prompt + bar + job.room_id));
    assert(a + bar + job.timezone + bar + job.prompt + bar + job.room_id =~= Seq::<char>::empty() + a
        + (bar + job.timezone + bar + job.prompt + bar + job.room_id));
    assert(c + bar + job.room_id =~= c + bar + job.room_id + Seq::<char>::empty());
}

/// What stands between the same texts is the same where the whole is.
proof fn lemma_same_parts(front: Seq<char>, a: Seq<char>, b: Seq<char>, back: Seq<char>)
    requires
        front + a + back == front + b + back,
    ensures
        a == b,
{
    let s = front + a + back;
    let t = front + b + back;
    assert(s.len() == front.len() + a.len() + back.len());
    assert(t.len() == front.len() + b.len() + back.len());
    assert(s.len() == t.len());
    let from = front.len() as int;
    let to = (front.len() + a.len()) as int;
    assert(s.subrange(from, to) =~= a);
    assert(t.subrange(from, to) =~= b);
}

/// What is taken off is what is no longer wanted as it is scheduled: every such job, and none that is
/// still wanted under its name as it is.
pub proof fn law_only_unwanted_jobs_are_taken_off(
    live: &[Live],
    jobs: &[Job],
    r: Vec<String>,
    i: int,
    k: int,
)
    requires
        call_ensures(stale, (live, jobs), r),
    ensures
        0 <= i < live@.len() && !current(live@[i], jobs@) ==> views(r@).contains(live@[i].name@),
        0 <= k < r@.len() ==> exists|i: int|
            0 <= i < live@.len() && (#[trigger] live@[i]).name@ == r@[k]@ && !current(
                live@[i],
                jobs@,
            ),
{
    if 0 <= i < live@.len() && !current(live@[i], jobs@) {
        law_an_unwanted_job_is_taken_off(live@, jobs@, i);
    }
    if 0 <= k < r@.len() {
        assert(views(r@)[k] == r@[k]@);
        lemma_stale_is_unwanted(live@, jobs@, k);
    }
}

proof fn lemma_stale_is_unwanted(live: Seq<Live>, jobs: Seq<Job>, k: int)
    requires
        0 <= k < stale_names(live, jobs).len(),
    ensures
        exists|i: int|
            0 <= i < live.len() && (#[trigger] live[i]).name@ == stale_names(live, jobs)[k]
                && !current(live[i], jobs),
    decreases live.len(),
{
    let earlier = stale_names(live.drop_last(), jobs);
    if k < earlier.len() {
        lemma_stale_is_unwanted(live.drop_last(), jobs, k);
        let i = choose|i: int|
            0 <= i < live.drop_last().len() && (#[trigger] live.drop_last()[i]).name@ == earlier[k]
                && !current(live.drop_last()[i], jobs);
        assert(live[i] == live.drop_last()[i]);
    } else {
        assert(live[live.len() - 1].name@ == stale_names(live, jobs)[k]);
    }
}

/// A job is still wanted as it is scheduled exactly where the job that its name stands for is enabled and
/// has the mark that it was scheduled by.
pub proof fn law_a_job_stays_while_it_is_unchanged(live: Live, jobs: Seq<Job>, i: int)
    requires
        0 <= i < jobs.len(),
        jobs[i].name@ == live.name@,
        forall|j: int| 0 <= j < jobs.len() && j != i ==> (#[trigger] jobs[j]).name@ != live.name@,
    ensures
        current(live, jobs) <==> jobs[i].enabled && mark(jobs[i]@) == live.fingerprint@,
{
    if jobs[i].enabled {
        lemma_wanted(jobs, live.name@, i);
    } else {
        lemma_unwanted(jobs, live.name@);
    }
}

/// A name that no enabled job has stands for none.
proof fn lemma_unwanted(jobs: Seq<Job>, name: Seq<char>)
    requires
        forall|j: int| 0 <= j < jobs.len() ==> !((#[trigger] jobs[j]).enabled && jobs[j].name@ == name),
    ensures
        wanted(jobs, name) is None,
    decreases jobs.len(),
{
    if jobs.len() > 0 {
        assert(!(jobs[jobs.len() - 1].enabled && jobs[jobs.len() - 1].name@ == name));
        assert forall|j: int| 0 <= j < jobs.drop_last().len() implies !((
        #[trigger] jobs.drop_last()[j]).enabled && jobs.drop_last()[j].name@ == name) by {
            assert(jobs.drop_last()[j] == jobs[j]);
        }
        lemma_unwanted(jobs.drop_last(), name);
    }
}

/// What is scheduled anew are jobs that are enabled and not scheduled as they are, each of those under a
/// name of its own, and only such jobs.
pub proof fn law_what_is_missing_is_scheduled(
    live: &[Live],
    jobs: &[Job],
    r: Vec<usize>,
    i: int,
    k: int,
)
    requires
        call_ensures(missing, (live, jobs), r),
        jobs@.len() <= usize::MAX,
    ensures
        0 <= k < r@.len() ==> r@[k] < jobs@.len() && jobs@[r@[k] as int].enabled && !stays(
            live@,
            jobs@,
            jobs@[r@[k] as int].name@,
        ),
        0 <= i < jobs@.len() && jobs@[i].enabled && !stays(live@, jobs@, jobs@[i].name@) && (forall|
            j: int,
        |
            0 <= j < jobs@.len() && j != i ==> (#[trigger] jobs@[j]).name@ != jobs@[i].name@)
            ==> r@.contains(i as usize),
{
    if 0 <= k < r@.len() {
        lemma_missing_is_wanted(live@, jobs@, jobs@.len() as int, k);
    }
    if 0 <= i < jobs@.len() && jobs@[i].enabled && !stays(live@, jobs@, jobs@[i].name@) && (forall|
        j: int,
    |
        0 <= j < jobs@.len() && j != i ==> (#[trigger] jobs@[j]).name@ != jobs@[i].name@) {
        law_every_wanted_job_is_scheduled(live@, jobs@, i);
    }
}

proof fn lemma_missing_is_wanted(live: Seq<Live>, jobs: Seq<Job>, count: int, k: int)
    requires
        0 <= count <= jobs.len() <= usize::MAX,
        0 <= k < missing_indices(live, jobs, count).len(),
    ensures
        missing_indices(live, jobs, count)[k] < count,
        to_schedule(live, jobs, missing_indices(live, jobs, count)[k] as int),
    decreases count,
{
    let before = missing_indices(live, jobs, count - 1);
    if k < before.len() {
        lemma_missing_is_wanted(live, jobs, count - 1, k);
    }
}

/// What is noted of a run tells whether it went well, and else what went wrong.
pub proof fn law_a_run_is_noted(failure: Option<String>, r: String)
    requires
        call_ensures(status, (failure,), r),
    ensures
        failure is None ==> r@ == "ok"@,
        failure matches Some(e) ==> crate::text::begins(r@, "error"@) && crate::text::ends(r@, e@),
{
    assert(crate::text::begins("error: "@, "error"@)) by {
        reveal_strlit("error: ");
        reveal_strlit("error");
        assert("error: "@.subrange(0, 5) =~= "error"@);
    }
    if failure is Some {
        crate::text::lemma_added("error: "@, failure->0@);
        crate::text::lemma_grow("error: "@, failure->0@, "error"@);
    }
}

/// A firing job asks the model what its prompt says, in its room, and nothing besides: jobs with different
/// prompts ask for different things.
pub proof fn law_a_firing_job_asks_its_prompt(job: &Job, r: Incoming)
    requires
        call_ensures(run_once, (job,), r),
    ensures
        r.body@ == job.prompt@,
        r.room_id@ == job.room_id@,
        r.ambient is None && r.reply_parent is None && r.attachments@.len() == 0,
        crate::agent::question(r).role == "user"@,
        crate::agent::question(r).content matches Some(crate::json::JsonView::Text(t))
            && crate::text::ends(t, job.prompt@),
{
    crate::text::lemma_added("scheduler"@ + ": "@, job.prompt@);
}

} // verus!
