//! What the statements about messages and jobs do to a room's database.
use vstd::prelude::*;

use crate::cron::{deletion, run_record, upserted, JobView, DELETE, RECORD_RUN, UPSERT};
use crate::db::{ParamView, StatementView};
use crate::embed::{table_statements, Embeddable};
use crate::messages::{recorded, RECORD};
use crate::notes::bound_text;

verus! {

// ---------------------------------------------------------------------------------------------
// Messages
// ---------------------------------------------------------------------------------------------

/// A message as a database keeps it.
#[verifier::ext_equal]
pub struct MessageView {
    pub room_id: Seq<char>,
    pub sender: Seq<char>,
    pub body: Seq<char>,
    pub at: Seq<char>,
}

/// The message that a statement writes.
pub open spec fn written_message(params: Seq<ParamView>) -> MessageView {
    MessageView {
        room_id: bound_text(params[1])->0,
        sender: bound_text(params[2])->0,
        body: bound_text(params[3])->0,
        at: bound_text(params[4])->0,
    }
}

/// The messages under their events, after a statement.
pub open spec fn messages_after(
    before: Map<Seq<char>, MessageView>,
    s: StatementView,
) -> Map<Seq<char>, MessageView> {
    if s.sql == RECORD@ && s.params.len() == 5 {
        let event_id = bound_text(s.params[0])->0;
        if before.dom().contains(event_id) {
            before
        } else {
            before.insert(event_id, written_message(s.params))
        }
    } else {
        before
    }
}

/// A message is archived once, however often it is replayed: the first time it becomes one more,
/// and what comes under the same event later changes nothing. No other message is touched.
pub proof fn law_a_replayed_message_is_archived_once(
    before: Map<Seq<char>, MessageView>,
    event_id: Seq<char>,
    first: MessageView,
    again: MessageView,
)
    requires
        before.dom().finite(),
    ensures
        ({
            let once = messages_after(
                before,
                recorded(event_id, first.room_id, first.sender, first.body, first.at),
            );
            let twice = messages_after(
                once,
                recorded(event_id, again.room_id, again.sender, again.body, again.at),
            );
            &&& twice == once
            &&& once.dom() == before.dom().insert(event_id)
            &&& before.dom().contains(event_id) ==> once == before
            &&& !before.dom().contains(event_id) ==> once[event_id] == first && once.len()
                == before.len() + 1
            &&& forall|other: Seq<char>|
                other != event_id && before.dom().contains(other) ==> #[trigger] once[other]
                    == before[other]
        }),
{
    let s = recorded(event_id, first.room_id, first.sender, first.body, first.at);
    assert(s.params[0] == ParamView::Text(event_id));
    assert(s.params[1] == ParamView::Text(first.room_id));
    assert(s.params[2] == ParamView::Text(first.sender));
    assert(s.params[3] == ParamView::Text(first.body));
    assert(s.params[4] == ParamView::Text(first.at));
    let t = recorded(event_id, again.room_id, again.sender, again.body, again.at);
    assert(t.params[0] == ParamView::Text(event_id));
    assert(messages_after(before, s).dom() =~= before.dom().insert(event_id));
}

/// To make a table of vectors ready leaves every message as it is: where their vectors are
/// discarded, the messages are there to be embedded anew.
pub proof fn law_discarding_vectors_keeps_the_messages<E: Embeddable>(
    before: Map<Seq<char>, MessageView>,
    current: Option<(String, i64)>,
    model: Seq<char>,
    dimensions: i64,
    i: int,
)
    requires
        0 <= i < table_statements::<E>(current, model, dimensions).len(),
    ensures
        messages_after(before, table_statements::<E>(current, model, dimensions)[i]) == before,
{
}

// ---------------------------------------------------------------------------------------------
// Jobs
// ---------------------------------------------------------------------------------------------

/// A job as a database keeps it.
#[verifier::ext_equal]
pub struct JobRowView {
    pub job: JobView,
    pub created_at: Seq<char>,
    pub last_run: Option<Seq<char>>,
    pub last_status: Option<Seq<char>>,
}

/// The job that a statement writes.
pub open spec fn written_job(params: Seq<ParamView>) -> JobView {
    JobView {
        name: bound_text(params[0])->0,
        schedule: bound_text(params[1])->0,
        timezone: bound_text(params[2])->0,
        prompt: bound_text(params[3])->0,
        room_id: bound_text(params[4])->0,
        enabled: params[5] != ParamView::Int(0),
    }
}

/// The jobs under their names, after a statement.
pub open spec fn jobs_after(before: Map<Seq<char>, JobRowView>, s: StatementView) -> Map<
    Seq<char>,
    JobRowView,
> {
    let name = bound_text(s.params[0])->0;
    if s.sql == UPSERT@ && s.params.len() == 7 {
        if before.dom().contains(name) {
            before.insert(name, JobRowView { job: written_job(s.params), ..before[name] })
        } else {
            before.insert(
                name,
                JobRowView {
                    job: written_job(s.params),
                    created_at: bound_text(s.params[6])->0,
                    last_run: None,
                    last_status: None,
                },
            )
        }
    } else if s.sql == DELETE@ && s.params.len() == 1 {
        before.remove(name)
    } else if s.sql == RECORD_RUN@ && s.params.len() == 3 && before.dom().contains(name) {
        before.insert(
            name,
            JobRowView {
                last_run: bound_text(s.params[1]),
                last_status: bound_text(s.params[2]),
                ..before[name]
            },
        )
    } else {
        before
    }
}

/// A job that is written is kept as it was given. One that is written again stays one job, and when
/// it was created and how it last ran are kept. No other job is touched.
pub proof fn law_a_job_is_kept_under_its_name(
    before: Map<Seq<char>, JobRowView>,
    job: JobView,
    now: Seq<char>,
)
    requires
        before.dom().finite(),
    ensures
        ({
            let after = jobs_after(before, upserted(job, now));
            &&& after.dom() == before.dom().insert(job.name)
            &&& after[job.name].job == job
            &&& before.dom().contains(job.name) ==> {
                &&& after.len() == before.len()
                &&& after[job.name].created_at == before[job.name].created_at
                &&& after[job.name].last_run == before[job.name].last_run
                &&& after[job.name].last_status == before[job.name].last_status
            }
            &&& !before.dom().contains(job.name) ==> {
                &&& after.len() == before.len() + 1
                &&& after[job.name].created_at == now
                &&& after[job.name].last_run is None
                &&& after[job.name].last_status is None
            }
            &&& forall|other: Seq<char>|
                other != job.name && before.dom().contains(other) ==> #[trigger] after[other]
                    == before[other]
        }),
{
    let s = upserted(job, now);
    assert(s.params[0] == ParamView::Text(job.name));
    assert(s.params[1] == ParamView::Text(job.schedule));
    assert(s.params[2] == ParamView::Text(job.timezone));
    assert(s.params[3] == ParamView::Text(job.prompt));
    assert(s.params[4] == ParamView::Text(job.room_id));
    assert(s.params[5] == ParamView::Int(
        if job.enabled {
            1i64
        } else {
            0i64
        },
    ));
    assert(s.params[6] == ParamView::Text(now));
    assert(jobs_after(before, s).dom() =~= before.dom().insert(job.name));
    if before.dom().contains(job.name) {
        assert(before.dom().insert(job.name) =~= before.dom());
    }
}

/// A deleted job is gone and no other is, and to delete it once more finds nothing.
pub proof fn law_a_deleted_job_is_gone(before: Map<Seq<char>, JobRowView>, name: Seq<char>)
    ensures
        jobs_after(before, deletion(name)) == before.remove(name),
        !before.dom().contains(name) ==> jobs_after(before, deletion(name)) == before,
        jobs_after(jobs_after(before, deletion(name)), deletion(name)) == jobs_after(
            before,
            deletion(name),
        ),
{
    assert(deletion(name).params[0] == ParamView::Text(name));
    assert(before.remove(name).remove(name) =~= before.remove(name));
    if !before.dom().contains(name) {
        assert(before.remove(name) =~= before);
    }
}

/// That a job ran changes when it last ran and what came of it, and neither what is scheduled nor
/// any other job. A job that was deleted while it ran does not come back.
pub proof fn law_a_run_changes_no_schedule(
    before: Map<Seq<char>, JobRowView>,
    name: Seq<char>,
    now: Seq<char>,
    status: Seq<char>,
)
    ensures
        ({
            let after = jobs_after(before, run_record(name, now, status));
            &&& after.dom() == before.dom()
            &&& before.dom().contains(name) ==> after[name] == (JobRowView {
                last_run: Some(now),
                last_status: Some(status),
                ..before[name]
            })
            &&& forall|other: Seq<char>| other != name ==> #[trigger] after[other] == before[other]
        }),
{
    let s = run_record(name, now, status);
    assert(s.params[0] == ParamView::Text(name));
    assert(s.params[1] == ParamView::Text(now));
    assert(s.params[2] == ParamView::Text(status));
    assert(jobs_after(before, s).dom() =~= before.dom());
}

} // verus!
