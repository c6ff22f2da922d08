//! Dreaming: a nightly pass where the agent consolidates its own memory.
//!
//! Memory accumulates by appending. A note is revised only when the agent reuses its key, and in
//! practice almost every key is distinct, so near-duplicates pile up and nothing ever revises them.
//!
//! This runs as an ordinary turn with the ordinary tools, so consolidation is the agent's own
//! judgement rather than a similarity threshold chosen here. It posts nothing: a room does not want
//! a report at five in the morning, and the result is visible in the memory itself.
use vstd::prelude::*;
use vstd::string::StringExecFns;

use crate::agent::Incoming;
use crate::text::{owned, split_words, views, words, Class};

verus! {

pub const JOB_NAME: &'static str = "dreaming";

/// What the agent is asked to do.
pub const PROMPT: &'static str = "You are consolidating your own memory. Nobody is watching and nothing you say here is sent to anyone, so spend the effort on the work rather than on a report.\n\nUse sql_query to look at the memories table: how many there are, which are near-duplicates of each other, which are stale, and which are worded so vaguely they will never be recalled. memory_recall finds entries by meaning, which is how you spot two records of the same fact written differently.\n\nThen improve it:\n- where several memories say the same thing, write one good memory under a short descriptive key and memory_forget the others\n- where a memory records something that has since changed, revise it\n- where a memory is a fragment of a conversation with no lasting value, forget it\n- give consolidated entries short, stable, descriptive keys, so that storing the same subject again revises the entry instead of adding another\n\nBe conservative. Forget something only when its content is genuinely captured elsewhere or genuinely worthless.";

/// The message that one consolidation pass answers. There is nowhere to send anything before the
/// end: an intermediate message would post to the room, which is the one thing this must not do.
pub fn run<'a>(room_id: &'a str) -> (r: Incoming<'a>)
    ensures
        r.room_id@ == room_id@,
        r.sender@ == "dreaming"@,
        r.body@ == PROMPT@,
        r.ambient is None,
        r.reply_parent is None,
        r.attachments@.len() == 0,
{
    Incoming {
        room_id,
        sender: "dreaming",
        body: PROMPT,
        ambient: None,
        reply_parent: None,
        attachments: Vec::new(),
    }
}

/// When the nightly pass fires, with seconds first.
pub open spec fn expression(schedule: Seq<char>) -> Seq<char> {
    if words(schedule, Class::White).len() == 5 {
        "0 "@ + schedule
    } else {
        schedule
    }
}

/// When the nightly pass fires, with seconds first.
pub fn schedule(crontab: &str) -> (r: String)
    ensures
        r@ == expression(crontab@),
{
    let fields = split_words(crontab, &Class::White);
    assert(views(fields@).len() == fields@.len());
    if fields.len() == 5 {
        let mut out = owned("0 ");
        out.append(crontab);
        out
    } else {
        owned(crontab)
    }
}

/// A pass is made in its room, asks for what the prompt says, and is told of nothing that was said there.
pub proof fn law_a_pass_is_made_in_its_room(room_id: &str, r: Incoming)
    requires
        call_ensures(run, (room_id,), r),
    ensures
        r.room_id@ == room_id@,
        r.body@.len() > 0,
        r.body@ == PROMPT@,
        r.ambient is None && r.reply_parent is None && r.attachments@.len() == 0,
{
    reveal_strlit("You are consolidating your own memory. Nobody is watching and nothing you say here is sent to anyone, so spend the effort on the work rather than on a report.\n\nUse sql_query to look at the memories table: how many there are, which are near-duplicates of each other, which are stale, and which are worded so vaguely they will never be recalled. memory_recall finds entries by meaning, which is how you spot two records of the same fact written differently.\n\nThen improve it:\n- where several memories say the same thing, write one good memory under a short descriptive key and memory_forget the others\n- where a memory records something that has since changed, revise it\n- where a memory is a fragment of a conversation with no lasting value, forget it\n- give consolidated entries short, stable, descriptive keys, so that storing the same subject again revises the entry instead of adding another\n\nBe conservative. Forget something only when its content is genuinely captured elsewhere or genuinely worthless.");
}

/// The pass fires by the crontab field by field: five fields behind a zero for the seconds, any others as
/// they are.
pub proof fn law_a_pass_fires_by_its_crontab(crontab: &str, r: String)
    requires
        call_ensures(schedule, (crontab,), r),
    ensures
        words(crontab@, Class::White).len() == 5 ==> words(r@, Class::White) == seq!["0"@] + words(
            crontab@,
            Class::White,
        ),
        words(crontab@, Class::White).len() != 5 ==> r@ == crontab@,
{
    if words(crontab@, Class::White).len() == 5 {
        let full = r@;
        reveal_strlit("0 ");
        reveal_strlit("0");
        assert(full[0] == '0' && full[1] == ' ');
        assert(full.drop_first().drop_first() =~= crontab@);
        assert(Seq::<char>::empty().push('0') =~= "0"@);
        assert(!Class::White.has('0'));
        assert(Class::White.has(' '));
        assert(crate::text::words_from(Seq::empty(), full, Class::White)
            == crate::text::words_from("0"@, full.drop_first(), Class::White));
        assert(full.drop_first()[0] == ' ');
        assert(crate::text::words_from("0"@, full.drop_first(), Class::White) == seq!["0"@]
            + crate::text::words_from(
            Seq::empty(),
            full.drop_first().drop_first(),
            Class::White,
        ));
    }
}

} // verus!
