//! Scheduled jobs, created by the agent at runtime rather than written into config.
//!
//! A firing job has one output path: the scheduler runs the prompt and posts the result.
use vstd::prelude::*;
use vstd::string::StringExecFns;

use crate::db::{bare, ParamView, Statement, StatementView};
use crate::outside::{cron_complaint, cron_refusal, known_zone, text_of, zone_exists};
use crate::text::{
    begins, contains, ends, occurs_at, owned, same, split_words, strip_back, strip_front, trim,
    trimmed, views, words, words_from, Class,
};

verus! {

/// A scheduled job.
#[derive(Debug, Clone, PartialEq, Eq)]
pub struct Job {
    pub name: String,
    pub schedule: String,
    pub timezone: String,
    pub prompt: String,
    pub room_id: String,
    pub enabled: bool,
}

/// What a job holds.
#[verifier::ext_equal]
pub struct JobView {
    pub name: Seq<char>,
    pub schedule: Seq<char>,
    pub timezone: Seq<char>,
    pub prompt: Seq<char>,
    pub room_id: Seq<char>,
    pub enabled: bool,
}

impl View for Job {
    type V = JobView;

    open spec fn view(&self) -> JobView {
        JobView {
            name: self.name@,
            schedule: self.schedule@,
            timezone: self.timezone@,
            prompt: self.prompt@,
            room_id: self.room_id@,
            enabled: self.enabled,
        }
    }
}

/// Writes a job, or replaces what is known of the one with its name.
pub const UPSERT: &'static str = "INSERT INTO cron_jobs (name, schedule, timezone, prompt, room_id, enabled, created_at)\n         VALUES (?1, ?2, ?3, ?4, ?5, ?6, ?7)\n         ON CONFLICT(name) DO UPDATE SET\n           schedule = excluded.schedule,\n           timezone = excluded.timezone,\n           prompt   = excluded.prompt,\n           room_id  = excluded.room_id,\n           enabled  = excluded.enabled";

/// Reads all jobs.
pub const LIST: &'static str = "SELECT name, schedule, timezone, prompt, room_id, enabled FROM cron_jobs ORDER BY name";

/// Deletes a job.
pub const DELETE: &'static str = "DELETE FROM cron_jobs WHERE name = ?1";

/// Notes when a job ran and what came of it.
pub const RECORD_RUN: &'static str = "UPDATE cron_jobs SET last_run = ?2, last_status = ?3 WHERE name = ?1";

/// The statement that writes a job.
pub open spec fn upserted(job: JobView, now: Seq<char>) -> StatementView {
    bare(UPSERT@).text(job.name).text(job.schedule).text(job.timezone).text(job.prompt).text(
        job.room_id,
    ).number(
        if job.enabled {
            1i64
        } else {
            0i64
        },
    ).text(now)
}

/// The statement that writes a job.
pub fn upsert(job: &Job, now: &str) -> (r: Statement)
    ensures
        r@ == upserted(job@, now@),
{
    let enabled: i64 = if job.enabled {
        1
    } else {
        0
    };
    Statement::new(UPSERT).text(job.name.as_str()).text(job.schedule.as_str()).text(
        job.timezone.as_str(),
    ).text(job.prompt.as_str()).text(job.room_id.as_str()).number(enabled).text(now)
}

/// The statement that reads all jobs.
pub fn list() -> (r: Statement)
    ensures
        r@ == bare(LIST@),
{
    Statement::new(LIST)
}

/// What deletes a job.
pub open spec fn deletion(name: Seq<char>) -> StatementView {
    bare(DELETE@).text(name)
}

/// The statement that deletes a job. It changes a row exactly where there was such a job.
pub fn delete(name: &str) -> (r: Statement)
    ensures
        r@ == deletion(name@),
{
    Statement::new(DELETE).text(name)
}

/// What notes when a job ran and what came of it.
pub open spec fn run_record(name: Seq<char>, now: Seq<char>, status: Seq<char>) -> StatementView {
    bare(RECORD_RUN@).text(name).text(now).text(status)
}

/// The statement that notes when a job ran and what came of it.
pub fn record_run(name: &str, now: &str, status: &str) -> (r: Statement)
    ensures
        r@ == run_record(name@, now@, status@),
{
    Statement::new(RECORD_RUN).text(name).text(now).text(status)
}

/// Why a job cannot be scheduled.
#[derive(Debug)]
pub enum JobError {
    Unnamed,
    UnknownZone(String),
    /// The schedule as it was given, and what the scheduler has against it.
    BadSchedule { schedule: String, complaint: String },
}

impl JobError {
    /// How the error reads.
    pub open spec fn words(self) -> Seq<char> {
        match self {
            JobError::Unnamed => "job name cannot be empty"@,
            JobError::UnknownZone(zone) => "unknown timezone '"@ + zone@ + "'"@,
            JobError::BadSchedule { schedule, complaint } => "invalid cron expression '"@
                + schedule@ + "': "@ + complaint@,
        }
    }

    /// How the error reads.
    pub fn message(&self) -> (r: String)
        ensures
            r@ == self.words(),
    {
        match self {
            JobError::Unnamed => owned("job name cannot be empty"),
            JobError::UnknownZone(zone) => {
                let mut out = owned("unknown timezone '");
                out.append(zone.as_str());
                out.append("'");
                out
            },
            JobError::BadSchedule { schedule, complaint } => {
                let mut out = owned("invalid cron expression '");
                out.append(schedule.as_str());
                out.append("': ");
                out.append(complaint.as_str());
                out
            },
        }
    }
}

/// A schedule with seconds first, which the scheduler wants. Ordinary crontab syntax has five
/// fields and no seconds.
pub open spec fn with_seconds(schedule: Seq<char>) -> Seq<char> {
    if words(schedule, Class::White).len() == 5 {
        "0 "@ + trimmed(schedule)
    } else {
        trimmed(schedule)
    }
}

/// Whether `r` is the verdict on a job, given whether its zone is known and what the scheduler has
/// against its schedule.
pub open spec fn judged(
    job: JobView,
    zone_known: bool,
    complaint: Option<Seq<char>>,
    r: Result<(), JobError>,
) -> bool {
    if trimmed(job.name).len() == 0 {
        r == Err::<(), JobError>(JobError::Unnamed)
    } else if !zone_known {
        r matches Err(JobError::UnknownZone(zone)) && zone@ == job.timezone
    } else {
        match complaint {
            Some(c) => r matches Err(JobError::BadSchedule { schedule, complaint: d })
                && schedule@ == job.schedule && d@ == c,
            None => r is Ok,
        }
    }
}

/// Writes a schedule with seconds first.
pub fn six_fields(schedule: &str) -> (r: String)
    ensures
        r@ == with_seconds(schedule@),
{
    let fields = split_words(schedule, &Class::White);
    assert(views(fields@).len() == fields@.len());
    if fields.len() == 5 {
        let mut out = owned("0 ");
        out.append(trim(schedule));
        out
    } else {
        owned(trim(schedule))
    }
}

impl Job {
    /// Reject a bad expression at creation time, where the agent can correct it, rather than at the
    /// next restart.
    pub fn validate(&self) -> (r: Result<(), JobError>)
        ensures
            judged(
                self@,
                known_zone(self.timezone@),
                cron_complaint(with_seconds(self.schedule@)),
                r,
            ),
    {
        let zone_known = zone_exists(self.timezone.as_str());
        let complaint = cron_refusal(self.six_field_schedule().as_str());
        self.verdict(zone_known, complaint)
    }

    /// The verdict on the job, given whether its zone is known and what the scheduler has against
    /// its schedule.
    pub fn verdict(&self, zone_known: bool, complaint: Option<String>) -> (r: Result<(), JobError>)
        ensures
            judged(self@, zone_known, text_of(complaint), r),
    {
        proof {
            reveal_strlit("");
        }
        let name = trim(self.name.as_str());
        assert(name@.len() == 0 ==> name@ =~= ""@);
        if same(name, "") {
            return Err(JobError::Unnamed);
        }
        if !zone_known {
            return Err(JobError::UnknownZone(self.timezone.clone()));
        }
        match complaint {
            Some(c) => Err(
                JobError::BadSchedule { schedule: self.schedule.clone(), complaint: c },
            ),
            None => Ok(()),
        }
    }

    /// The schedule with seconds first.
    pub fn six_field_schedule(&self) -> (r: String)
        ensures
            r@ == with_seconds(self.schedule@),
    {
        six_fields(self.schedule.as_str())
    }

    /// The zone in which the schedule counts: the job's own where it is known, else UTC.
    pub fn tz(&self) -> (r: String)
        ensures
            r@ == zone_or(self.timezone@, known_zone(self.timezone@), "UTC"@),
    {
        known_or(self.timezone.as_str(), zone_exists(self.timezone.as_str()), "UTC")
    }
}

/// A zone where it is known, else another.
pub open spec fn zone_or(zone: Seq<char>, known: bool, other: Seq<char>) -> Seq<char> {
    if known {
        zone
    } else {
        other
    }
}

/// A zone where it is known, else another.
pub fn known_or(zone: &str, known: bool, other: &str) -> (r: String)
    ensures
        r@ == zone_or(zone@, known, other@),
{
    if known {
        owned(zone)
    } else {
        owned(other)
    }
}

// ---------------------------------------------------------------------------------------------
// Laws
// ---------------------------------------------------------------------------------------------

/// White space in front adds no words.
proof fn lemma_words_strip_front(s: Seq<char>)
    ensures
        words(strip_front(s, Class::White), Class::White) == words(s, Class::White),
    decreases s.len(),
{
    if s.len() > 0 && Class::White.has(s[0]) {
        lemma_words_strip_front(s.drop_first());
        assert(Seq::<Seq<char>>::empty() + words(s.drop_first(), Class::White) =~= words(
            s.drop_first(),
            Class::White,
        ));
    }
}

/// White space behind adds no words.
proof fn lemma_words_pushed(current: Seq<char>, rest: Seq<char>, c: char)
    requires
        Class::White.has(c),
    ensures
        words_from(current, rest.push(c), Class::White) == words_from(current, rest, Class::White),
    decreases rest.len(),
{
    if rest.len() == 0 {
        reveal_with_fuel(words_from, 2);
        assert(rest.push(c).drop_first() =~= Seq::empty());
        let held = if current.len() > 0 {
            seq![current]
        } else {
            Seq::empty()
        };
        assert(held + Seq::<Seq<char>>::empty() =~= held);
    } else {
        assert(rest.push(c).drop_first() =~= rest.drop_first().push(c));
        if Class::White.has(rest[0]) {
            lemma_words_pushed(Seq::empty(), rest.drop_first(), c);
        } else {
            lemma_words_pushed(current.push(rest[0]), rest.drop_first(), c);
        }
    }
}

/// White space behind adds no words.
proof fn lemma_words_strip_back(s: Seq<char>)
    ensures
        words(strip_back(s, Class::White), Class::White) == words(s, Class::White),
    decreases s.len(),
{
    if s.len() > 0 && Class::White.has(s.last()) {
        lemma_words_strip_back(s.drop_last());
        lemma_words_pushed(Seq::empty(), s.drop_last(), s.last());
        assert(s.drop_last().push(s.last()) =~= s);
    }
}

/// Trimming changes no words.
proof fn lemma_words_trimmed(s: Seq<char>)
    ensures
        words(trimmed(s), Class::White) == words(s, Class::White),
{
    lemma_words_strip_front(s);
    lemma_words_strip_back(s);
    lemma_words_strip_front(strip_back(s, Class::White));
    lemma_words_strip_back(strip_front(s, Class::White));
}

/// An ordinary schedule fires at second zero: it becomes six fields, of which the first is zero and
/// the others are its own. Any other schedule keeps its fields.
pub proof fn law_a_schedule_keeps_its_fields(schedule: Seq<char>)
    ensures
        words(schedule, Class::White).len() == 5 ==> words(with_seconds(schedule), Class::White)
            == seq!["0"@] + words(schedule, Class::White),
        words(schedule, Class::White).len() != 5 ==> words(with_seconds(schedule), Class::White)
            == words(schedule, Class::White),
{
    lemma_words_trimmed(schedule);
    if words(schedule, Class::White).len() == 5 {
        let t = trimmed(schedule);
        let full = with_seconds(schedule);
        reveal_strlit("0 ");
        reveal_strlit("0");
        assert(full[0] == '0' && full[1] == ' ');
        assert(full.drop_first().drop_first() =~= t);
        assert(Seq::<char>::empty().push('0') =~= "0"@);
        assert(!Class::White.has('0'));
        assert(Class::White.has(' '));
        assert(words_from(Seq::empty(), full, Class::White) == words_from(
            "0"@,
            full.drop_first(),
            Class::White,
        ));
        assert(full.drop_first()[0] == ' ');
        assert(words_from("0"@, full.drop_first(), Class::White) == seq!["0"@] + words_from(
            Seq::empty(),
            full.drop_first().drop_first(),
            Class::White,
        ));
    }
}

/// A job passes exactly where it has a name, its zone is one, and the scheduler has nothing against its
/// schedule with seconds in front. What is refused is told with what it is refused for.
pub proof fn law_a_job_passes_that_can_be_scheduled(job: &Job, r: Result<(), JobError>)
    requires
        call_ensures(Job::validate, (job,), r),
    ensures
        r is Ok <==> trimmed(job.name@).len() > 0 && known_zone(job.timezone@) && cron_complaint(
            with_seconds(job.schedule@),
        ) is None,
        trimmed(job.name@).len() > 0 && !known_zone(job.timezone@) ==> (r matches Err(e)
            && crate::text::contains(e.words(), job.timezone@)),
        trimmed(job.name@).len() > 0 && known_zone(job.timezone@) ==> (cron_complaint(
            with_seconds(job.schedule@),
        ) matches Some(c) ==> (r matches Err(e) && crate::text::contains(e.words(), job.schedule@)
            && crate::text::ends(e.words(), c))),
{
    crate::text::lemma_parts("unknown timezone '"@, job.timezone@, "'"@);
    let a = "invalid cron expression '"@ + job.schedule@;
    crate::text::lemma_added("invalid cron expression '"@, job.schedule@);
    crate::text::lemma_grow(a, "': "@, job.schedule@);
    if cron_complaint(with_seconds(job.schedule@)) is Some {
        let c = cron_complaint(with_seconds(job.schedule@))->0;
        crate::text::lemma_grow(a + "': "@, c, job.schedule@);
        crate::text::lemma_added(a + "': "@, c);
    }
}

/// What the scheduler is given of a job is its schedule field by field: five fields behind a zero for the
/// seconds, any others as they are; and its zone, where there is such a zone.
pub proof fn law_the_scheduler_gets_the_schedule(job: &Job, fields: String, zone: String)
    requires
        call_ensures(Job::six_field_schedule, (job,), fields),
        call_ensures(Job::tz, (job,), zone),
    ensures
        words(job.schedule@, Class::White).len() == 5 ==> words(fields@, Class::White) == seq!["0"@]
            + words(job.schedule@, Class::White),
        words(job.schedule@, Class::White).len() != 5 ==> words(fields@, Class::White) == words(
            job.schedule@,
            Class::White,
        ),
        known_zone(job.timezone@) ==> zone@ == job.timezone@,
        !known_zone(job.timezone@) ==> zone@ == "UTC"@,
{
    law_a_schedule_keeps_its_fields(job.schedule@);
}

/// A job is written with everything that is known of it, each in its column, under its name; one that
/// is written again is replaced.
pub proof fn law_a_job_is_written_column_by_column(job: &Job, now: &str, r: Statement)
    requires
        call_ensures(upsert, (job, now), r),
    ensures
        r@.params == seq![
            ParamView::Text(job.name@),
            ParamView::Text(job.schedule@),
            ParamView::Text(job.timezone@),
            ParamView::Text(job.prompt@),
            ParamView::Text(job.room_id@),
            ParamView::Int(
                if job.enabled {
                    1i64
                } else {
                    0i64
                },
            ),
            ParamView::Text(now@),
        ],
        begins(
            r.sql@,
            "INSERT INTO cron_jobs (name, schedule, timezone, prompt, room_id, enabled, created_at)"@,
        ),
        contains(r.sql@, "VALUES (?1, ?2, ?3, ?4, ?5, ?6, ?7)"@),
        contains(r.sql@, "ON CONFLICT(name) DO UPDATE"@),
        contains(r.sql@, "schedule = excluded.schedule"@),
        contains(r.sql@, "timezone = excluded.timezone"@),
        contains(r.sql@, "prompt   = excluded.prompt"@),
        contains(r.sql@, "room_id  = excluded.room_id"@),
        ends(r.sql@, "enabled  = excluded.enabled"@),
{
    lemma_upsert_sql();
    assert(r@.params =~= seq![
        ParamView::Text(job.name@),
        ParamView::Text(job.schedule@),
        ParamView::Text(job.timezone@),
        ParamView::Text(job.prompt@),
        ParamView::Text(job.room_id@),
        ParamView::Int(
            if job.enabled {
                1i64
            } else {
                0i64
            },
        ),
        ParamView::Text(now@),
    ]);
}

/// A job is deleted by its name, and by its name it is noted when it ran and what came of it. All
/// jobs are read by name.
pub proof fn law_a_job_is_reached_by_its_name(
    name: &str,
    now: &str,
    status: &str,
    gone: Statement,
    ran: Statement,
    all: Statement,
)
    requires
        call_ensures(delete, (name,), gone),
        call_ensures(record_run, (name, now, status), ran),
        call_ensures(list, (), all),
    ensures
        gone@.params == seq![ParamView::Text(name@)],
        gone.sql@ == "DELETE FROM cron_jobs WHERE name = ?1"@,
        ran@.params == seq![
            ParamView::Text(name@),
            ParamView::Text(now@),
            ParamView::Text(status@),
        ],
        begins(ran.sql@, "UPDATE cron_jobs SET last_run = ?2, last_status = ?3"@),
        ends(ran.sql@, "WHERE name = ?1"@),
        all@.params.len() == 0,
        begins(all.sql@, "SELECT name, schedule, timezone, prompt, room_id, enabled"@),
        ends(all.sql@, "FROM cron_jobs ORDER BY name"@),
{
    lemma_record_run_sql();
    lemma_list_sql();
    assert(gone@.params =~= seq![ParamView::Text(name@)]);
    assert(ran@.params =~= seq![
        ParamView::Text(name@),
        ParamView::Text(now@),
        ParamView::Text(status@),
    ]);
}

/// How the statement reads that writes a job.
proof fn lemma_upsert_sql()
    ensures
        begins(UPSERT@, "INSERT INTO cron_jobs (name, schedule, timezone, prompt, room_id, enabled, created_at)"@),
        contains(UPSERT@, "VALUES (?1, ?2, ?3, ?4, ?5, ?6, ?7)"@),
        contains(UPSERT@, "ON CONFLICT(name) DO UPDATE"@),
        contains(UPSERT@, "schedule = excluded.schedule"@),
        contains(UPSERT@, "timezone = excluded.timezone"@),
        contains(UPSERT@, "prompt   = excluded.prompt"@),
        contains(UPSERT@, "room_id  = excluded.room_id"@),
        ends(UPSERT@, "enabled  = excluded.enabled"@),
{
    reveal_strlit(
        "INSERT INTO cron_jobs (name, schedule, timezone, prompt, room_id, enabled, created_at)\n         VALUES (?1, ?2, ?3, ?4, ?5, ?6, ?7)\n         ON CONFLICT(name) DO UPDATE SET\n           schedule = excluded.schedule,\n           timezone = excluded.timezone,\n           prompt   = excluded.prompt,\n           room_id  = excluded.room_id,\n           enabled  = excluded.enabled",
    );
    reveal_strlit("INSERT INTO cron_jobs (name, schedule, timezone, prompt, room_id, enabled, created_at)");
    reveal_strlit("VALUES (?1, ?2, ?3, ?4, ?5, ?6, ?7)");
    reveal_strlit("ON CONFLICT(name) DO UPDATE");
    reveal_strlit("schedule = excluded.schedule");
    reveal_strlit("timezone = excluded.timezone");
    reveal_strlit("prompt   = excluded.prompt");
    reveal_strlit("room_id  = excluded.room_id");
    reveal_strlit("enabled  = excluded.enabled");
    assert(UPSERT@.subrange(0, 86) =~= "INSERT INTO cron_jobs (name, schedule, timezone, prompt, room_id, enabled, created_at)"@);
    assert(UPSERT@.subrange(96, 131) =~= "VALUES (?1, ?2, ?3, ?4, ?5, ?6, ?7)"@);
    assert(occurs_at(UPSERT@, "VALUES (?1, ?2, ?3, ?4, ?5, ?6, ?7)"@, 96));
    assert(UPSERT@.subrange(141, 168) =~= "ON CONFLICT(name) DO UPDATE"@);
    assert(occurs_at(UPSERT@, "ON CONFLICT(name) DO UPDATE"@, 141));
    assert(UPSERT@.subrange(184, 212) =~= "schedule = excluded.schedule"@);
    assert(occurs_at(UPSERT@, "schedule = excluded.schedule"@, 184));
    assert(UPSERT@.subrange(225, 253) =~= "timezone = excluded.timezone"@);
    assert(occurs_at(UPSERT@, "timezone = excluded.timezone"@, 225));
    assert(UPSERT@.subrange(266, 292) =~= "prompt   = excluded.prompt"@);
    assert(occurs_at(UPSERT@, "prompt   = excluded.prompt"@, 266));
    assert(UPSERT@.subrange(305, 332) =~= "room_id  = excluded.room_id"@);
    assert(occurs_at(UPSERT@, "room_id  = excluded.room_id"@, 305));
    assert(UPSERT@.skip(UPSERT@.len() - 27) =~= "enabled  = excluded.enabled"@);
}

/// How the statement reads that notes a run.
proof fn lemma_record_run_sql()
    ensures
        begins(RECORD_RUN@, "UPDATE cron_jobs SET last_run = ?2, last_status = ?3"@),
        ends(RECORD_RUN@, "WHERE name = ?1"@),
{
    reveal_strlit(
        "UPDATE cron_jobs SET last_run = ?2, last_status = ?3 WHERE name = ?1",
    );
    reveal_strlit("UPDATE cron_jobs SET last_run = ?2, last_status = ?3");
    reveal_strlit("WHERE name = ?1");
    assert(RECORD_RUN@.subrange(0, 52) =~= "UPDATE cron_jobs SET last_run = ?2, last_status = ?3"@);
    assert(RECORD_RUN@.skip(RECORD_RUN@.len() - 15) =~= "WHERE name = ?1"@);
}

/// How the statement reads that reads all jobs.
proof fn lemma_list_sql()
    ensures
        begins(LIST@, "SELECT name, schedule, timezone, prompt, room_id, enabled"@),
        ends(LIST@, "FROM cron_jobs ORDER BY name"@),
{
    reveal_strlit(
        "SELECT name, schedule, timezone, prompt, room_id, enabled FROM cron_jobs ORDER BY name",
    );
    reveal_strlit("SELECT name, schedule, timezone, prompt, room_id, enabled");
    reveal_strlit("FROM cron_jobs ORDER BY name");
    assert(LIST@.subrange(0, 57) =~= "SELECT name, schedule, timezone, prompt, room_id, enabled"@);
    assert(LIST@.skip(LIST@.len() - 28) =~= "FROM cron_jobs ORDER BY name"@);
}

/// What is wrong with a job can be read in the message: the zone that is not known, or the schedule
/// and what there is against it.
pub proof fn law_what_is_wrong_with_a_job_is_told(e: &JobError, r: String)
    requires
        call_ensures(JobError::message, (e,), r),
    ensures
        *e matches JobError::UnknownZone(zone) ==> contains(r@, zone@),
        *e matches JobError::BadSchedule { schedule, complaint } ==> contains(r@, schedule@) && ends(
            r@,
            complaint@,
        ),
{
    match e {
        JobError::UnknownZone(zone) => {
            crate::text::lemma_parts("unknown timezone '"@, zone@, "'"@);
        },
        JobError::BadSchedule { schedule, complaint } => {
            let head = "invalid cron expression '"@;
            crate::text::lemma_parts(head, schedule@, "': "@);
            crate::text::lemma_added(head + schedule@ + "': "@, complaint@);
            crate::text::lemma_grow(head + schedule@ + "': "@, complaint@, schedule@);
        },
        JobError::Unnamed => {},
    }
}

/// A job passes exactly where it has a name, its zone is known and there is nothing against its
/// schedule; what is against it is told of the job itself.
pub proof fn law_a_job_is_judged_by_what_is_known_of_it(
    job: &Job,
    zone_known: bool,
    complaint: Option<String>,
    r: Result<(), JobError>,
)
    requires
        call_ensures(Job::verdict, (job, zone_known, complaint), r),
    ensures
        r is Ok <==> trimmed(job.name@).len() > 0 && zone_known && complaint is None,
        trimmed(job.name@).len() == 0 ==> r == Err::<(), JobError>(JobError::Unnamed),
        r matches Err(JobError::UnknownZone(zone)) ==> zone@ == job.timezone@ && !zone_known,
        r matches Err(JobError::BadSchedule { schedule, complaint: c }) ==> schedule@ == job.schedule@
            && (complaint matches Some(given) && c@ == given@),
{
    reveal_strlit("");
    if trimmed(job.name@).len() == 0 {
        assert(trimmed(job.name@) =~= ""@);
    }
}

/// A zone that is known is kept, and another stands in for one that is not.
pub proof fn law_a_known_zone_stands(zone: &str, known: bool, other: &str, r: String)
    requires
        call_ensures(known_or, (zone, known, other), r),
    ensures
        known ==> r@ == zone@,
        !known ==> r@ == other@,
{
}

} // verus!
