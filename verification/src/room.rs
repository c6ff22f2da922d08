//! What a room's recent conversation is, and whether a message is meant for the bot.
use vstd::prelude::*;
use vstd::string::StringExecFns;

use crate::text::{
    ascii_alphanumeric, chars_of, contains, find, find_from, has_substring, holds, join, joined,
    is_ascii_alphanumeric, lowercase, occurs_at, owned, same, to_lowercase, views,
};

verus! {

/// One message of a room.
#[derive(Debug, Clone)]
pub struct Turn {
    pub sender: String,
    pub body: String,
}

/// The recent messages of one room.
pub struct Room {
    pub id: String,
    pub turns: Vec<Turn>,
}

/// The most recent messages of every room.
pub struct Buffers {
    rooms: Vec<Room>,
    capacity: usize,
}

/// The messages of the room with the given id, where there is one.
pub open spec fn turns_of(rooms: Seq<Room>, id: Seq<char>) -> Option<Seq<Turn>>
    decreases rooms.len(),
{
    if rooms.len() == 0 {
        None
    } else if rooms.last().id@ == id {
        Some(rooms.last().turns@)
    } else {
        turns_of(rooms.drop_last(), id)
    }
}

/// Whether no two rooms share an id.
pub open spec fn distinct_rooms(rooms: Seq<Room>) -> bool {
    forall|i: int, j: int|
        0 <= i < j < rooms.len() ==> (#[trigger] rooms[i]).id@ != (#[trigger] rooms[j]).id@
}

/// The last `n` elements of a sequence.
pub open spec fn newest<T>(s: Seq<T>, n: nat) -> Seq<T> {
    if s.len() <= n {
        s
    } else {
        s.skip(s.len() - n)
    }
}

/// A message with its sender before it.
pub open spec fn labelled(t: Turn) -> Seq<char> {
    t.sender@ + ": "@ + t.body@
}

/// The messages with their senders before them.
pub open spec fn labelled_all(turns: Seq<Turn>) -> Seq<Seq<char>> {
    Seq::new(turns.len(), |i: int| labelled(turns[i]))
}

proof fn lemma_turns_of_found(rooms: Seq<Room>, i: int)
    requires
        distinct_rooms(rooms),
        0 <= i < rooms.len(),
    ensures
        turns_of(rooms, rooms[i].id@) == Some(rooms[i].turns@),
    decreases rooms.len(),
{
    if i < rooms.len() - 1 {
        assert(rooms.drop_last()[i] == rooms[i]);
        assert(rooms[rooms.len() - 1].id@ != rooms[i].id@);
        lemma_turns_of_found(rooms.drop_last(), i);
    }
}

proof fn lemma_turns_of_missing(rooms: Seq<Room>, id: Seq<char>)
    requires
        forall|i: int| 0 <= i < rooms.len() ==> (#[trigger] rooms[i]).id@ != id,
    ensures
        turns_of(rooms, id) is None,
    decreases rooms.len(),
{
    if rooms.len() > 0 {
        assert(rooms[rooms.len() - 1].id@ != id);
        assert forall|i: int| 0 <= i < rooms.drop_last().len() implies (
        #[trigger] rooms.drop_last()[i]).id@ != id by {
            assert(rooms.drop_last()[i] == rooms[i]);
        }
        lemma_turns_of_missing(rooms.drop_last(), id);
    }
}

/// Changing one room leaves the others as they are.
proof fn lemma_turns_of_update(rooms: Seq<Room>, i: int, room: Room, id: Seq<char>)
    requires
        0 <= i < rooms.len(),
        room.id@ == rooms[i].id@,
        id != room.id@,
    ensures
        turns_of(rooms.update(i, room), id) == turns_of(rooms, id),
    decreases rooms.len(),
{
    let changed = rooms.update(i, room);
    if i < rooms.len() - 1 {
        assert(changed.drop_last() =~= rooms.drop_last().update(i, room));
        lemma_turns_of_update(rooms.drop_last(), i, room, id);
    } else {
        assert(changed.drop_last() =~= rooms.drop_last());
    }
}

impl Buffers {
    /// The messages kept of a room, oldest first.
    pub closed spec fn turns(&self, id: Seq<char>) -> Option<Seq<Turn>> {
        turns_of(self.rooms@, id)
    }

    /// How many messages are kept of a room.
    pub closed spec fn limit(&self) -> nat {
        self.capacity as nat
    }

    /// Rooms are distinct, and none holds more than the capacity.
    #[verifier::type_invariant]
    closed spec fn well_formed(self) -> bool {
        &&& self.capacity >= 1
        &&& distinct_rooms(self.rooms@)
        &&& forall|i: int|
            0 <= i < self.rooms@.len() ==> (#[trigger] self.rooms@[i]).turns@.len()
                <= self.capacity
    }

    /// Buffers that keep the given number of messages per room, and at least one.
    pub fn new(capacity: usize) -> (r: Self)
        ensures
            r.limit() == (if capacity == 0 {
                1nat
            } else {
                capacity as nat
            }),
            forall|id: Seq<char>| r.turns(id) is None,
    {
        Buffers {
            rooms: Vec::new(),
            capacity: if capacity == 0 {
                1
            } else {
                capacity
            },
        }
    }

    /// The place of a room.
    fn position(&self, room_id: &str) -> (r: Option<usize>)
        ensures
            match r {
                Some(i) => i < self.rooms@.len() && self.rooms@[i as int].id@ == room_id@,
                None => forall|i: int|
                    0 <= i < self.rooms@.len() ==> (#[trigger] self.rooms@[i]).id@ != room_id@,
            },
    {
        for i in 0..self.rooms.len()
            invariant
                forall|j: int| 0 <= j < i ==> (#[trigger] self.rooms@[j]).id@ != room_id@,
        {
            if same(self.rooms[i].id.as_str(), room_id) {
                return Some(i);
            }
        }
        None
    }

    /// Adds a message to a room, and drops the oldest ones that the capacity has no place for.
    pub fn push(&mut self, room_id: &str, turn: Turn)
        ensures
            final(self).limit() == old(self).limit(),
            final(self).turns(room_id@) == Some(
                newest(
                    (match old(self).turns(room_id@) {
                        Some(earlier) => earlier,
                        None => Seq::empty(),
                    }).push(turn),
                    old(self).limit(),
                ),
            ),
            forall|other: Seq<char>|
                other != room_id@ ==> #[trigger] final(self).turns(other) == old(self).turns(other),
    {
        proof {
            use_type_invariant(&*self);
        }
        match self.position(room_id) {
            Some(i) => {
                let mut rooms: Vec<Room> = Vec::new();
                std::mem::swap(&mut rooms, &mut self.rooms);
                let ghost before = rooms@;
                proof {
                    lemma_turns_of_found(before, i as int);
                }
                let mut turns = copy_turns(rooms[i].turns.as_slice());
                turns.push(turn);
                if turns.len() > self.capacity {
                    let kept = turns.split_off(turns.len() - self.capacity);
                    turns = kept;
                }
                let ghost all = before[i as int].turns@.push(turn);
                assert(turns@ =~= newest(all, self.capacity as nat));
                let room = Room { id: rooms[i].id.clone(), turns };
                rooms.set(i, room);
                proof {
                    assert(rooms@ == before.update(i as int, room));
                    lemma_turns_of_found(rooms@, i as int);
                    assert forall|other: Seq<char>| other != room_id@ implies #[trigger] turns_of(
                        rooms@,
                        other,
                    ) == turns_of(before, other) by {
                        lemma_turns_of_update(before, i as int, room, other);
                    }
                }
                self.rooms = rooms;
            },
            None => {
                let mut rooms: Vec<Room> = Vec::new();
                std::mem::swap(&mut rooms, &mut self.rooms);
                let ghost before = rooms@;
                proof {
                    lemma_turns_of_missing(before, room_id@);
                }
                let mut turns: Vec<Turn> = Vec::new();
                turns.push(turn);
                assert(turns@ =~= newest(Seq::<Turn>::empty().push(turn), self.capacity as nat));
                rooms.push(Room { id: owned(room_id), turns });
                proof {
                    assert(rooms@.drop_last() =~= before);
                }
                self.rooms = rooms;
            },
        }
    }

    /// The messages kept of a room, one to a line and each after its sender. With `skip_last` the
    /// newest is left out. None where nothing is left to show.
    pub fn render(&self, room_id: &str, skip_last: bool) -> (r: Option<String>)
        ensures
            match self.turns(room_id@) {
                None => r is None,
                Some(turns) => {
                    let shown = if skip_last && turns.len() > 0 {
                        turns.drop_last()
                    } else {
                        turns
                    };
                    if shown.len() == 0 {
                        r is None
                    } else {
                        r matches Some(s) && s@ == joined(labelled_all(shown), "\n"@)
                    }
                },
            },
    {
        proof {
            use_type_invariant(self);
        }
        let i = match self.position(room_id) {
            Some(i) => i,
            None => {
                proof {
                    lemma_turns_of_missing(self.rooms@, room_id@);
                }
                return None;
            },
        };
        proof {
            lemma_turns_of_found(self.rooms@, i as int);
        }
        let turns = &self.rooms[i].turns;
        let keep: usize = if skip_last && turns.len() > 0 {
            turns.len() - 1
        } else {
            turns.len()
        };
        if keep == 0 {
            return None;
        }
        let ghost shown = turns@.take(keep as int);
        assert(keep == turns@.len() ==> shown =~= turns@);
        assert(keep < turns@.len() ==> shown =~= turns@.drop_last());
        let mut lines: Vec<String> = Vec::new();
        for k in 0..keep
            invariant
                keep <= turns@.len(),
                shown == turns@.take(keep as int),
                views(lines@) == labelled_all(shown).take(k as int),
        {
            let ghost before = views(lines@);
            let mut line = turns[k].sender.clone();
            line.append(": ");
            line.append(turns[k].body.as_str());
            lines.push(line);
            assert(shown[k as int] == turns@[k as int]);
            assert(views(lines@) =~= before.push(line@));
            assert(labelled_all(shown).take(k + 1) =~= before.push(line@));
        }
        assert(views(lines@) =~= labelled_all(shown));
        Some(join(lines.as_slice(), "\n"))
    }
}

/// Copies a message.
pub fn copy_turn(t: &Turn) -> (r: Turn)
    ensures
        r == *t,
{
    Turn { sender: t.sender.clone(), body: t.body.clone() }
}

/// Copies a list of messages.
fn copy_turns(v: &[Turn]) -> (r: Vec<Turn>)
    ensures
        r@ == v@,
{
    let mut out: Vec<Turn> = Vec::new();
    for i in 0..v.len()
        invariant
            out@ == v@.take(i as int),
    {
        assert(v@.take(i + 1) =~= v@.take(i as int).push(v@[i as int]));
        out.push(copy_turn(&v[i]));
    }
    assert(v@.take(v@.len() as int) =~= v@);
    out
}

// ---------------------------------------------------------------------------------------------
// Being addressed
// ---------------------------------------------------------------------------------------------

/// Whether the part of `s` from `start` to `end` has no ASCII letter or digit next to it.
pub open spec fn stands_alone(s: Seq<char>, start: int, end: int) -> bool {
    &&& start == 0 || !ascii_alphanumeric(s[start - 1])
    &&& end >= s.len() || !ascii_alphanumeric(s[end])
}

/// Whether one of the occurrences of `needle` that a scan from `from` meets stands alone. The
/// scan goes on behind an occurrence that does not.
pub open spec fn word_from(s: Seq<char>, needle: Seq<char>, from: int) -> bool
    decreases s.len() - from,
{
    if needle.len() == 0 || from < 0 {
        false
    } else {
        match find_from(s, needle, from) {
            None => false,
            Some(i) => if i < from {
                false
            } else {
                ||| stands_alone(s, i, i + needle.len())
                ||| i + needle.len() < s.len() && word_from(s, needle, i + needle.len())
            },
        }
    }
}

/// Whether the message names the bot or its account, or was meant for it in another way.
pub open spec fn addressed(
    body: Seq<char>,
    mentions: Seq<Seq<char>>,
    user_id: Seq<char>,
    localpart: Seq<char>,
    display_name: Seq<char>,
    is_reply_to_bot: bool,
) -> bool {
    ||| is_reply_to_bot
    ||| mentions.contains(user_id)
    ||| contains(lowercase(body), lowercase(user_id))
    ||| word_from(lowercase(body), lowercase(localpart), 0)
    ||| display_name.len() > 0 && word_from(lowercase(body), lowercase(display_name), 0)
}

/// Decides whether a message is meant for the bot: by a reply to it, a mention, its user id, or
/// its name as a word of its own.
pub fn is_addressed(
    body: &str,
    m_mentions: &[String],
    user_id: &str,
    localpart: &str,
    display_name: &str,
    is_reply_to_bot: bool,
) -> (r: bool)
    ensures
        r == addressed(
            body@,
            views(m_mentions@),
            user_id@,
            localpart@,
            display_name@,
            is_reply_to_bot,
        ),
{
    if is_reply_to_bot {
        return true;
    }
    if holds(m_mentions, user_id) {
        return true;
    }
    let haystack = to_lowercase(body);
    if has_substring(haystack.as_str(), to_lowercase(user_id).as_str()) {
        return true;
    }
    contains_word(haystack.as_str(), to_lowercase(localpart).as_str()) || (!display_name.is_empty()
        && contains_word(haystack.as_str(), to_lowercase(display_name).as_str()))
}

/// Decides whether `needle` stands in `haystack` as a word of its own.
pub fn contains_word(haystack: &str, needle: &str) -> (r: bool)
    ensures
        r == word_from(haystack@, needle@, 0),
{
    let s = chars_of(haystack);
    let n = chars_of(needle);
    if n.len() == 0 {
        return false;
    }
    let total: usize = s.len();
    let mut from: usize = 0;
    loop
        invariant
            s@ == haystack@,
            n@ == needle@,
            n@.len() > 0,
            total == s@.len(),
            from <= total,
            word_from(haystack@, needle@, 0) == word_from(haystack@, needle@, from as int),
        decreases s@.len() - from,
    {
        proof {
            crate::text::lemma_find_from(s@, n@, from as int);
        }
        let start: usize = match find(s.as_slice(), n.as_slice(), from) {
            Some(i) => i,
            None => {
                return false;
            },
        };
        let end: usize = start + n.len();
        let before_ok = start == 0 || !is_ascii_alphanumeric(s[start - 1]);
        let after_ok = end >= s.len() || !is_ascii_alphanumeric(s[end]);
        if before_ok && after_ok {
            return true;
        }
        if end >= s.len() {
            return false;
        }
        from = end;
    }
}

/// A name that is found as a word does stand in the text with no letter or digit next to it.
pub proof fn law_a_found_word_stands_alone(s: Seq<char>, needle: Seq<char>, from: int)
    requires
        0 <= from,
        word_from(s, needle, from),
    ensures
        exists|i: int| from <= i && #[trigger] occurs_at(s, needle, i) && stands_alone(
            s,
            i,
            i + needle.len(),
        ),
    decreases s.len() - from,
{
    crate::text::lemma_find_from(s, needle, from);
    let i = find_from(s, needle, from)->0;
    if !stands_alone(s, i, i + needle.len()) {
        law_a_found_word_stands_alone(s, needle, i + needle.len());
    }
}

/// A name made of ASCII letters and digits is found wherever it stands alone.
pub proof fn law_a_plain_word_is_found(s: Seq<char>, needle: Seq<char>, from: int, at: int)
    requires
        needle.len() > 0,
        forall|k: int| 0 <= k < needle.len() ==> ascii_alphanumeric(#[trigger] needle[k]),
        0 <= from <= at,
        occurs_at(s, needle, at),
        stands_alone(s, at, at + needle.len()),
    ensures
        word_from(s, needle, from),
    decreases s.len() - from,
{
    crate::text::lemma_find_from(s, needle, from);
    let i = find_from(s, needle, from)->0;
    assert(i <= at);
    if !stands_alone(s, i, i + needle.len()) {
        if at < i + needle.len() {
            if at > i {
                // The character before `at` lies inside the occurrence at `i`.
                assert(s.subrange(i, i + needle.len())[at - 1 - i] == s[at - 1]);
                assert(ascii_alphanumeric(needle[at - 1 - i]));
            }
        } else {
            law_a_plain_word_is_found(s, needle, i + needle.len(), at);
        }
    }
}

/// Someone else's mention never suppresses the name: more mentions only ever add ways in which a
/// message is addressed to the bot.
pub proof fn law_other_mentions_do_not_suppress_the_name(
    body: Seq<char>,
    mentions: Seq<Seq<char>>,
    user_id: Seq<char>,
    localpart: Seq<char>,
    display_name: Seq<char>,
    is_reply_to_bot: bool,
)
    ensures
        addressed(body, Seq::empty(), user_id, localpart, display_name, is_reply_to_bot)
            ==> addressed(body, mentions, user_id, localpart, display_name, is_reply_to_bot),
{
}

/// What is kept when messages are added one after the other.
pub open spec fn buffered<T>(s: Seq<T>, limit: nat) -> Seq<T>
    decreases s.len(),
{
    if s.len() == 0 {
        Seq::empty()
    } else {
        newest(buffered(s.drop_last(), limit).push(s.last()), limit)
    }
}

/// However many messages are added to a room, the newest of them all are kept, in their order.
pub proof fn law_the_newest_messages_are_kept<T>(s: Seq<T>, limit: nat)
    requires
        limit >= 1,
    ensures
        buffered(s, limit) == newest(s, limit),
    decreases s.len(),
{
    if s.len() > 0 {
        law_the_newest_messages_are_kept(s.drop_last(), limit);
        assert(buffered(s, limit) =~= newest(s, limit));
    } else {
        assert(s =~= Seq::empty());
    }
}

/// A message is kept in its room as the newest, behind those that came before it; where there is no more
/// place the oldest one goes. Other rooms stay as they are.
pub proof fn law_a_message_is_kept_in_its_room(
    b: &mut Buffers,
    room_id: &str,
    turn: Turn,
    other: Seq<char>,
    earlier: Seq<Turn>,
)
    requires
        call_ensures(Buffers::push, (b, room_id, turn), ()),
        old(b).turns(room_id@) == Some(earlier) || (old(b).turns(room_id@) is None && earlier.len()
            == 0),
        earlier.len() <= old(b).limit(),
        old(b).limit() >= 1,
        other != room_id@,
    ensures
        final(b).turns(room_id@) matches Some(after) && {
            &&& after.len() > 0
            &&& after.last() == turn
            &&& after.len() <= old(b).limit()
            &&& earlier.len() < old(b).limit() ==> after.drop_last() == earlier
            &&& earlier.len() == old(b).limit() ==> after.drop_last() == earlier.drop_first()
        },
        final(b).turns(other) == old(b).turns(other),
        final(b).limit() == old(b).limit(),
{
    let after = final(b).turns(room_id@)->0;
    let start = match old(b).turns(room_id@) {
        Some(e) => e,
        None => Seq::empty(),
    };
    assert(start =~= earlier);
    if earlier.len() < old(b).limit() {
        assert(after.drop_last() =~= earlier);
    } else {
        assert(after.drop_last() =~= earlier.drop_first());
    }
}

/// Buffers keep as many messages of a room as they are told to, at least one, and hold none at first.
pub proof fn law_new_buffers_are_empty(capacity: usize, r: Buffers, id: Seq<char>)
    requires
        call_ensures(Buffers::new, (capacity,), r),
    ensures
        r.turns(id) is None,
        capacity >= 1 ==> r.limit() == capacity,
        capacity == 0 ==> r.limit() == 1,
{
}

/// Every message that is kept of a room is shown, who sent it before what it says; the newest one only
/// where it is not to be left out. Where there is nothing to show, nothing is.
pub proof fn law_every_kept_message_is_shown(
    b: &Buffers,
    room_id: &str,
    skip_last: bool,
    r: Option<String>,
    turns: Seq<Turn>,
    i: int,
)
    requires
        call_ensures(Buffers::render, (b, room_id, skip_last), r),
        b.turns(room_id@) == Some(turns),
    ensures
        r is None <==> turns.len() <= (if skip_last {
            1int
        } else {
            0int
        }),
        r matches Some(text) ==> (0 <= i < (if skip_last {
            turns.len() - 1
        } else {
            turns.len() as int
        }) ==> contains(text@, turns[i].sender@ + ": "@ + turns[i].body@)),
{
    if r is Some && 0 <= i < (if skip_last {
        turns.len() - 1
    } else {
        turns.len() as int
    }) {
        let shown = if skip_last {
            turns.drop_last()
        } else {
            turns
        };
        assert(shown[i] == turns[i]);
        crate::text::lemma_joined_holds(labelled_all(shown), "\n"@, i);
        assert(labelled_all(shown)[i] == labelled(turns[i]));
    }
}

/// Messages are shown in their order, one to a line.
pub proof fn law_messages_are_shown_in_order(a: Seq<Turn>, b: Seq<Turn>)
    requires
        a.len() > 0,
        b.len() > 0,
    ensures
        joined(labelled_all(a + b), "\n"@) == joined(labelled_all(a), "\n"@) + "\n"@ + joined(
            labelled_all(b),
            "\n"@,
        ),
        joined(labelled_all(seq![a[0]]), "\n"@) == a[0].sender@ + ": "@ + a[0].body@,
{
    assert(labelled_all(a + b) =~= labelled_all(a) + labelled_all(b));
    assert(labelled_all(seq![a[0]]) =~= seq![labelled(a[0])]);
    crate::text::law_joining_goes_part_by_part(
        labelled_all(a),
        labelled_all(b),
        "\n"@,
        labelled(a[0]),
    );
}

/// A message is meant for the bot where it replies to it, mentions it, or holds its user id, in whichever
/// case; and where it is not any of these, only where a name of the bot stands in it as a word of its
/// own.
pub proof fn law_a_message_is_meant_for_the_bot(
    body: &str,
    mentions: &[String],
    user_id: &str,
    localpart: &str,
    display_name: &str,
    reply: bool,
    r: bool,
    i: int,
)
    requires
        call_ensures(
            is_addressed,
            (body, mentions, user_id, localpart, display_name, reply),
            r,
        ),
    ensures
        reply ==> r,
        0 <= i < mentions@.len() && mentions@[i]@ == user_id@ ==> r,
        contains(lowercase(body@), lowercase(user_id@)) ==> r,
        r ==> reply || views(mentions@).contains(user_id@) || contains(
            lowercase(body@),
            lowercase(user_id@),
        ) || is_word_of(lowercase(body@), lowercase(localpart@)) || (display_name@.len() > 0
            && is_word_of(lowercase(body@), lowercase(display_name@))),
{
    if 0 <= i < mentions@.len() {
        assert(views(mentions@)[i] == mentions@[i]@);
    }
    if word_from(lowercase(body@), lowercase(localpart@), 0) {
        law_a_found_word_stands_alone(lowercase(body@), lowercase(localpart@), 0);
    }
    if word_from(lowercase(body@), lowercase(display_name@), 0) {
        law_a_found_word_stands_alone(lowercase(body@), lowercase(display_name@), 0);
    }
}

/// Whether a name stands somewhere in a text with no letter or digit next to it.
pub open spec fn is_word_of(s: Seq<char>, name: Seq<char>) -> bool {
    exists|i: int| #[trigger] occurs_at(s, name, i) && (i == 0 || !ascii_alphanumeric(s[i - 1]))
        && (i + name.len() >= s.len() || !ascii_alphanumeric(s[i + name.len()]))
}

/// A message that holds a name of the bot as a word of its own is meant for it, by either name, where the
/// name is made of letters and digits.
pub proof fn law_the_name_of_the_bot_is_enough(
    body: &str,
    mentions: &[String],
    user_id: &str,
    localpart: &str,
    display_name: &str,
    reply: bool,
    r: bool,
    name: Seq<char>,
)
    requires
        call_ensures(
            is_addressed,
            (body, mentions, user_id, localpart, display_name, reply),
            r,
        ),
        name == lowercase(localpart@) || (name == lowercase(display_name@) && display_name@.len()
            > 0),
        name.len() > 0,
        forall|k: int| 0 <= k < name.len() ==> ascii_alphanumeric(#[trigger] name[k]),
        is_word_of(lowercase(body@), name),
    ensures
        r,
{
    let s = lowercase(body@);
    let at = choose|i: int| #[trigger] occurs_at(s, name, i) && (i == 0 || !ascii_alphanumeric(
        s[i - 1],
    )) && (i + name.len() >= s.len() || !ascii_alphanumeric(s[i + name.len()]));
    law_a_plain_word_is_found(s, name, 0, at);
}

} // verus!
