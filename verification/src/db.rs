//! The databases of the rooms: where they lie, what is asked of them, and how their rows read.
use vstd::prelude::*;
use vstd::string::StringExecFns;

use crate::outside::{sha256, sha256_digest};
use crate::text::{
    after_prefix, ascii_alphanumeric, begins, chars_of, contains, decimal, decimal_of, ends,
    from_utf8_lossy, holds, is_ascii_alphanumeric, join, joined, lemma_added, lemma_contains_within,
    lemma_decimal_value, lemma_joined_holds, lemma_parts, lossy, lowered, occurs_at, owned, same,
    signed_decimal, signed_decimal_of, slice_of, string_of, to_ascii_lowercase, views,
};

verus! {

/// The tables of a room, and the indexes that follow them.
pub const SCHEMA: &'static str = "\nCREATE TABLE IF NOT EXISTS memories (\n  id         TEXT PRIMARY KEY,\n  key        TEXT NOT NULL UNIQUE,\n  content    TEXT NOT NULL,\n  category   TEXT NOT NULL DEFAULT 'core',\n  room_id    TEXT,\n  created_at TEXT NOT NULL,\n  updated_at TEXT NOT NULL\n);\n\nCREATE VIRTUAL TABLE IF NOT EXISTS memories_fts\n  USING fts5(key, content, content='memories', content_rowid='rowid');\n\nCREATE TRIGGER IF NOT EXISTS memories_ai AFTER INSERT ON memories BEGIN\n  INSERT INTO memories_fts(rowid, key, content) VALUES (new.rowid, new.key, new.content);\nEND;\nCREATE TRIGGER IF NOT EXISTS memories_ad AFTER DELETE ON memories BEGIN\n  INSERT INTO memories_fts(memories_fts, rowid, key, content)\n  VALUES ('delete', old.rowid, old.key, old.content);\nEND;\nCREATE TRIGGER IF NOT EXISTS memories_au AFTER UPDATE ON memories BEGIN\n  INSERT INTO memories_fts(memories_fts, rowid, key, content)\n  VALUES ('delete', old.rowid, old.key, old.content);\n  INSERT INTO memories_fts(rowid, key, content) VALUES (new.rowid, new.key, new.content);\nEND;\n\nCREATE TABLE IF NOT EXISTS messages (\n  event_id TEXT PRIMARY KEY,\n  room_id  TEXT NOT NULL,\n  sender   TEXT NOT NULL,\n  body     TEXT NOT NULL,\n  at       TEXT NOT NULL\n);\n\nCREATE INDEX IF NOT EXISTS idx_messages_room ON messages(room_id, at);\n\nCREATE VIRTUAL TABLE IF NOT EXISTS messages_fts\n  USING fts5(body, content='messages', content_rowid='rowid');\n\n-- Trigram matches substrings, which the default tokenizer cannot, and supplies\n-- the candidate set that approximate ranking scores.\nCREATE VIRTUAL TABLE IF NOT EXISTS messages_trigram\n  USING fts5(body, content='messages', content_rowid='rowid', tokenize='trigram');\n\nCREATE TRIGGER IF NOT EXISTS messages_ai AFTER INSERT ON messages BEGIN\n  INSERT INTO messages_fts(rowid, body) VALUES (new.rowid, new.body);\n  INSERT INTO messages_trigram(rowid, body) VALUES (new.rowid, new.body);\nEND;\nCREATE TRIGGER IF NOT EXISTS messages_ad AFTER DELETE ON messages BEGIN\n  INSERT INTO messages_fts(messages_fts, rowid, body) VALUES ('delete', old.rowid, old.body);\n  INSERT INTO messages_trigram(messages_trigram, rowid, body) VALUES ('delete', old.rowid, old.body);\nEND;\n\nCREATE TABLE IF NOT EXISTS cron_jobs (\n  name        TEXT PRIMARY KEY,\n  schedule    TEXT NOT NULL,\n  timezone    TEXT NOT NULL,\n  prompt      TEXT NOT NULL,\n  room_id     TEXT NOT NULL,\n  enabled     INTEGER NOT NULL DEFAULT 1,\n  created_at  TEXT NOT NULL,\n  last_run    TEXT,\n  last_status TEXT\n);\n";

/// Where the databases of the rooms lie, under the state directory.
pub const ROOMS_DIR: &'static str = "rooms";

/// The one database that all rooms once shared.
pub const LEGACY_FILE: &'static str = "merlin.db";

// ---------------------------------------------------------------------------------------------
// Statements
// ---------------------------------------------------------------------------------------------

/// A value bound to a parameter of a statement.
#[derive(Debug)]
pub enum Param {
    Text(String),
    Int(i64),
    Null,
}

/// What a bound value holds.
#[verifier::ext_equal]
pub enum ParamView {
    Text(Seq<char>),
    Int(i64),
    Null,
}

impl View for Param {
    type V = ParamView;

    open spec fn view(&self) -> ParamView {
        match self {
            Param::Text(s) => ParamView::Text(s@),
            Param::Int(n) => ParamView::Int(*n),
            Param::Null => ParamView::Null,
        }
    }
}

/// A statement and the values of its parameters, in order.
#[derive(Debug)]
pub struct Statement {
    pub sql: String,
    pub params: Vec<Param>,
}

/// What a statement holds.
#[verifier::ext_equal]
pub struct StatementView {
    pub sql: Seq<char>,
    pub params: Seq<ParamView>,
}

impl View for Statement {
    type V = StatementView;

    open spec fn view(&self) -> StatementView {
        StatementView {
            sql: self.sql@,
            params: Seq::new(self.params@.len(), |i: int| self.params@[i]@),
        }
    }
}

/// A statement without parameters.
pub open spec fn bare(sql: Seq<char>) -> StatementView {
    StatementView { sql, params: Seq::empty() }
}

impl StatementView {
    /// The statement with one more text bound.
    pub open spec fn text(self, s: Seq<char>) -> StatementView {
        StatementView { params: self.params.push(ParamView::Text(s)), ..self }
    }

    /// The statement with one more number bound.
    pub open spec fn number(self, n: i64) -> StatementView {
        StatementView { params: self.params.push(ParamView::Int(n)), ..self }
    }

    /// The statement with one more text bound, or null where there is none.
    pub open spec fn optional(self, s: Option<Seq<char>>) -> StatementView {
        match s {
            Some(t) => self.text(t),
            None => StatementView { params: self.params.push(ParamView::Null), ..self },
        }
    }
}

impl Statement {
    /// A statement without parameters.
    pub fn new(sql: &str) -> (r: Self)
        ensures
            r@ == bare(sql@),
    {
        let r = Statement { sql: owned(sql), params: Vec::new() };
        assert(r@.params =~= Seq::empty());
        r
    }

    /// The statement with one more value bound.
    fn bind(self, p: Param) -> (r: Self)
        ensures
            r@ == (StatementView { params: self@.params.push(p@), ..self@ }),
    {
        let ghost before = self@.params;
        let mut params = self.params;
        params.push(p);
        let r = Statement { sql: self.sql, params };
        assert(r@.params =~= before.push(p@));
        r
    }

    /// The statement with one more text bound.
    pub fn text(self, s: &str) -> (r: Self)
        ensures
            r@ == self@.text(s@),
    {
        self.bind(Param::Text(owned(s)))
    }

    /// The statement with one more number bound.
    pub fn number(self, n: i64) -> (r: Self)
        ensures
            r@ == self@.number(n),
    {
        self.bind(Param::Int(n))
    }

    /// The statement with one more text bound, or null where there is none.
    pub fn optional(self, s: Option<&str>) -> (r: Self)
        ensures
            r@ == self@.optional(crate::json::optional_text(s)),
    {
        match s {
            Some(t) => self.text(t),
            None => self.bind(Param::Null),
        }
    }
}

/// What the statements of a list hold.
pub open spec fn statement_views(v: Seq<Statement>) -> Seq<StatementView> {
    Seq::new(v.len(), |i: int| v[i]@)
}

// ---------------------------------------------------------------------------------------------
// Rooms
// ---------------------------------------------------------------------------------------------

/// The character of a hexadecimal digit.
pub open spec fn hex_digit(d: int) -> char {
    if d < 10 {
        (d + '0' as int) as char
    } else {
        (d - 10 + 'a' as int) as char
    }
}

/// Bytes in hexadecimal, two digits each.
pub open spec fn hex(bytes: Seq<u8>) -> Seq<char>
    decreases bytes.len(),
{
    if bytes.len() == 0 {
        Seq::empty()
    } else {
        hex(bytes.drop_last()).push(hex_digit(bytes.last() as int / 16)).push(
            hex_digit(bytes.last() as int % 16),
        )
    }
}

/// The name under which a room is filed: the SHA-256 digest of its id, in hexadecimal.
pub open spec fn key_of_room(room_id: Seq<char>) -> Seq<char> {
    hex(sha256(vstd::utf8::encode_utf8(room_id)))
}

/// The character of a hexadecimal digit.
fn hex_digit_of(d: u8) -> (c: char)
    requires
        d < 16,
    ensures
        c == hex_digit(d as int),
{
    if d < 10 {
        (d + 48u8) as char
    } else {
        (d - 10u8 + 97u8) as char
    }
}

/// Writes bytes in hexadecimal.
pub fn hex_of(bytes: &[u8]) -> (r: String)
    ensures
        r@ == hex(bytes@),
{
    let mut out = String::new();
    assert(bytes@.take(0) =~= Seq::empty());
    for i in 0..bytes.len()
        invariant
            out@ == hex(bytes@.take(i as int)),
    {
        assert(bytes@.take(i + 1).drop_last() =~= bytes@.take(i as int));
        out.push(hex_digit_of(bytes[i] / 16u8));
        out.push(hex_digit_of(bytes[i] % 16u8));
    }
    assert(bytes@.take(bytes@.len() as int) =~= bytes@);
    out
}

/// The name under which a room is filed.
pub fn room_key(room_id: &str) -> (r: String)
    ensures
        r@ == key_of_room(room_id@),
        r@.len() == 64,
        forall|i: int| 0 <= i < r@.len() ==> is_hex(#[trigger] r@[i]),
{
    let digest = sha256_digest(room_id.as_bytes());
    proof {
        lemma_hex(digest@);
    }
    hex_of(digest.as_slice())
}

/// Whether a character is a hexadecimal digit in lower case.
pub open spec fn is_hex(c: char) -> bool {
    '0' <= c <= '9' || 'a' <= c <= 'f'
}

/// Hexadecimal has two digits for each byte, and nothing but digits.
proof fn lemma_hex(bytes: Seq<u8>)
    ensures
        hex(bytes).len() == 2 * bytes.len(),
        forall|i: int| 0 <= i < hex(bytes).len() ==> is_hex(#[trigger] hex(bytes)[i]),
    decreases bytes.len(),
{
    if bytes.len() > 0 {
        lemma_hex(bytes.drop_last());
    }
}

/// Different digests are filed under different names.
pub proof fn law_names_tell_digests_apart(a: Seq<u8>, b: Seq<u8>)
    requires
        hex(a) == hex(b),
    ensures
        a == b,
    decreases a.len(),
{
    lemma_hex(a);
    lemma_hex(b);
    if a.len() > 0 {
        let n = hex(a).len() as int;
        let high = hex(a.drop_last()).push(hex_digit(a.last() as int / 16));
        assert(hex(a)[n - 1] == hex_digit(a.last() as int % 16));
        assert(hex(b)[n - 1] == hex_digit(b.last() as int % 16));
        assert(hex(a)[n - 2] == hex_digit(a.last() as int / 16));
        assert(hex(b)[n - 2] == hex_digit(b.last() as int / 16));
        assert(a.last() == b.last());
        assert(hex(a).take(n - 2) =~= hex(a.drop_last()));
        assert(hex(b).take(n - 2) =~= hex(b.drop_last()));
        law_names_tell_digests_apart(a.drop_last(), b.drop_last());
        assert(a =~= a.drop_last().push(a.last()));
        assert(b =~= b.drop_last().push(b.last()));
    } else {
        assert(a =~= b);
    }
}

/// Why a database cannot be had or asked.
#[derive(Debug)]
pub enum DbError {
    NoRooms,
    NoDatabase(String),
    Writes,
}

impl DbError {
    /// How the error reads.
    pub open spec fn words(self) -> Seq<char> {
        match self {
            DbError::NoRooms => "cannot open databases without rooms"@,
            DbError::NoDatabase(room_id) => "no database for room "@ + room_id@,
            DbError::Writes =>
                "that statement would modify the database; only SELECT, WITH and EXPLAIN are allowed here"@,
        }
    }

    /// How the error reads.
    pub fn message(&self) -> (r: String)
        ensures
            r@ == self.words(),
    {
        match self {
            DbError::NoRooms => owned("cannot open databases without rooms"),
            DbError::NoDatabase(room_id) => {
                let mut out = owned("no database for room ");
                out.append(room_id.as_str());
                out
            },
            DbError::Writes => owned(
                "that statement would modify the database; only SELECT, WITH and EXPLAIN are allowed here",
            ),
        }
    }
}

/// The file of a room's database.
pub open spec fn file_of_room(room_id: Seq<char>) -> Seq<char> {
    key_of_room(room_id) + ".db"@
}

/// The file of a room's database.
pub fn room_file(room_id: &str) -> (r: String)
    ensures
        r@ == file_of_room(room_id@),
{
    let mut out = room_key(room_id);
    out.append(".db");
    out
}

/// The databases of the rooms, by room.
pub struct RoomDbs<C> {
    rooms: Vec<(String, C)>,
}

/// The handle of the room with the given id, among rooms that are all different.
pub open spec fn handle<C>(rooms: Seq<(Seq<char>, C)>, room_id: Seq<char>) -> Option<C>
    decreases rooms.len(),
{
    if rooms.len() == 0 {
        None
    } else if rooms.last().0 == room_id {
        Some(rooms.last().1)
    } else {
        handle(rooms.drop_last(), room_id)
    }
}

/// Whether no room occurs twice.
pub open spec fn distinct<C>(rooms: Seq<(Seq<char>, C)>) -> bool {
    forall|i: int, j: int| 0 <= i < j < rooms.len() ==> rooms[i].0 != rooms[j].0
}

/// A handle is found where a room stands.
proof fn lemma_handle<C>(rooms: Seq<(Seq<char>, C)>, room_id: Seq<char>, i: int)
    requires
        distinct(rooms),
        0 <= i < rooms.len(),
        rooms[i].0 == room_id,
    ensures
        handle(rooms, room_id) == Some(rooms[i].1),
    decreases rooms.len(),
{
    if i < rooms.len() - 1 {
        assert(rooms[rooms.len() - 1].0 != room_id);
        assert(distinct(rooms.drop_last())) by {
            assert forall|a: int, b: int| 0 <= a < b < rooms.drop_last().len() implies
                rooms.drop_last()[a].0 != rooms.drop_last()[b].0 by {
                assert(rooms[a].0 != rooms[b].0);
            }
        }
        lemma_handle(rooms.drop_last(), room_id, i);
    }
}

/// No handle is found where a room does not stand.
proof fn lemma_no_handle<C>(rooms: Seq<(Seq<char>, C)>, room_id: Seq<char>)
    requires
        forall|i: int| 0 <= i < rooms.len() ==> (#[trigger] rooms[i]).0 != room_id,
    ensures
        handle(rooms, room_id) is None,
    decreases rooms.len(),
{
    if rooms.len() > 0 {
        assert(rooms[rooms.len() - 1].0 != room_id);
        assert forall|i: int| 0 <= i < rooms.drop_last().len() implies (
        #[trigger] rooms.drop_last()[i]).0 != room_id by {
            assert(rooms[i].0 != room_id);
        }
        lemma_no_handle(rooms.drop_last(), room_id);
    }
}

/// Replacing the handle of a room changes no other.
proof fn lemma_replaced<C>(rooms: Seq<(Seq<char>, C)>, i: int, c: C, room_id: Seq<char>)
    requires
        distinct(rooms),
        0 <= i < rooms.len(),
    ensures
        handle(rooms.update(i, (rooms[i].0, c)), room_id) == (if rooms[i].0 == room_id {
            Some(c)
        } else {
            handle(rooms, room_id)
        }),
    decreases rooms.len(),
{
    let after = rooms.update(i, (rooms[i].0, c));
    assert(distinct(after));
    if rooms[i].0 == room_id {
        lemma_handle(after, room_id, i);
    } else if rooms.len() > 0 {
        let last = rooms.len() - 1;
        if i == last {
            assert(after.drop_last() =~= rooms.drop_last());
        } else {
            assert(distinct(rooms.drop_last())) by {
                assert forall|a: int, b: int| 0 <= a < b < rooms.drop_last().len() implies
                    rooms.drop_last()[a].0 != rooms.drop_last()[b].0 by {
                    assert(rooms[a].0 != rooms[b].0);
                }
            }
            lemma_replaced(rooms.drop_last(), i, c, room_id);
            assert(after.drop_last() =~= rooms.drop_last().update(i, (rooms[i].0, c)));
        }
    }
}

impl<C> RoomDbs<C> {
    /// The rooms and their handles.
    pub closed spec fn entries(&self) -> Seq<(Seq<char>, C)> {
        Seq::new(self.rooms@.len(), |i: int| (self.rooms@[i].0@, self.rooms@[i].1))
    }

    #[verifier::type_invariant]
    spec fn sound(&self) -> bool {
        distinct(self.entries())
    }

    /// The files of the databases of the rooms, in the order of the rooms. Without rooms there is
    /// nothing to open.
    pub fn open(room_ids: &[String]) -> (r: Result<Vec<String>, DbError>)
        ensures
            match r {
                Ok(files) => room_ids@.len() > 0 && views(files@) == Seq::new(
                    room_ids@.len(),
                    |i: int| file_of_room(room_ids@[i]@),
                ),
                Err(e) => room_ids@.len() == 0 && e == DbError::NoRooms,
            },
    {
        if room_ids.len() == 0 {
            return Err(DbError::NoRooms);
        }
        let ghost wanted = Seq::new(room_ids@.len(), |i: int| file_of_room(room_ids@[i]@));
        let mut out: Vec<String> = Vec::new();
        for i in 0..room_ids.len()
            invariant
                wanted == Seq::new(room_ids@.len(), |i: int| file_of_room(room_ids@[i]@)),
                views(out@) == wanted.take(i as int),
        {
            let ghost before = views(out@);
            let file = room_file(room_ids[i].as_str());
            out.push(file);
            assert(views(out@) =~= before.push(file@));
            assert(wanted.take(i + 1) =~= before.push(file@));
        }
        assert(wanted.take(room_ids@.len() as int) =~= wanted);
        Ok(out)
    }

    /// No room has a database yet.
    pub fn new() -> (r: Self)
        ensures
            forall|id: Seq<char>| #[trigger] handle(r.entries(), id) is None,
    {
        RoomDbs { rooms: Vec::new() }
    }

    /// Files a database under its room. A room keeps the one that was filed last.
    pub fn insert(&mut self, room_id: &str, c: C)
        ensures
            handle(final(self).entries(), room_id@) == Some(c),
            forall|id: Seq<char>| #[trigger]
                handle(final(self).entries(), id) == (if id == room_id@ {
                    Some(c)
                } else {
                    handle(old(self).entries(), id)
                }),
    {
        proof {
            use_type_invariant(&*self);
        }
        let ghost before = self.entries();
        let mut rooms: Vec<(String, C)> = Vec::new();
        std::mem::swap(&mut rooms, &mut self.rooms);
        let ghost start = rooms@;
        let count: usize = rooms.len();
        for i in 0..count
            invariant
                count == start.len(),
                rooms@ == start,
                before.len() == start.len(),
                forall|j: int| 0 <= j < start.len() ==> #[trigger] before[j] == (
                    start[j].0@,
                    start[j].1,
                ),
                distinct(before),
                forall|j: int| 0 <= j < i ==> (#[trigger] before[j]).0 != room_id@,
                before == old(self).entries(),
        {
            assert(before[i as int].0 == start[i as int].0@);
            if same(rooms[i].0.as_str(), room_id) {
                let name = owned(room_id);
                rooms.set(i, (name, c));
                let ghost changed = Seq::new(rooms@.len(), |i: int| (rooms@[i].0@, rooms@[i].1));
                assert(changed =~= before.update(i as int, (before[i as int].0, c)));
                assert(distinct(changed));
                self.rooms = rooms;
                assert(self.entries() =~= changed);
                let ghost after = self.entries();
                assert(after =~= before.update(i as int, (before[i as int].0, c)));
                proof {
                    assert forall|id: Seq<char>| #[trigger] handle(after, id) == (if id == room_id@ {
                        Some(c)
                    } else {
                        handle(before, id)
                    }) by {
                        lemma_replaced(before, i as int, c, id);
                    }
                }
                return ;
            }
        }
        rooms.push((owned(room_id), c));
        let ghost grown = Seq::new(rooms@.len(), |i: int| (rooms@[i].0@, rooms@[i].1));
        assert(grown =~= before.push((room_id@, c)));
        assert(distinct(grown));
        self.rooms = rooms;
        assert(self.entries() =~= grown);
        proof {
            assert forall|id: Seq<char>| #[trigger] handle(self.entries(), id) == (if id == room_id@ {
                Some(c)
            } else {
                handle(before, id)
            }) by {
                assert(before.push((room_id@, c)).drop_last() =~= before);
            }
        }
    }

    /// The database of a room.
    pub fn get(&self, room_id: &str) -> (r: Result<&C, DbError>)
        ensures
            match r {
                Ok(c) => handle(self.entries(), room_id@) == Some(*c),
                Err(e) => handle(self.entries(), room_id@) is None
                    && (e matches DbError::NoDatabase(id) && id@ == room_id@),
            },
    {
        proof {
            use_type_invariant(self);
        }
        for i in 0..self.rooms.len()
            invariant
                distinct(self.entries()),
                forall|j: int| 0 <= j < i ==> (#[trigger] self.entries()[j]).0 != room_id@,
        {
            assert(self.entries()[i as int].0 == self.rooms@[i as int].0@);
            if same(self.rooms[i].0.as_str(), room_id) {
                proof {
                    lemma_handle(self.entries(), room_id@, i as int);
                }
                return Ok(&self.rooms[i].1);
            }
        }
        proof {
            lemma_no_handle(self.entries(), room_id@);
        }
        Err(DbError::NoDatabase(owned(room_id)))
    }

    /// How many rooms have a database. No room counts twice.
    pub fn len(&self) -> (r: usize)
        ensures
            r == self.entries().len(),
            distinct(self.entries()),
    {
        proof {
            use_type_invariant(self);
        }
        self.rooms.len()
    }

    /// A room and its database, by position.
    pub fn at(&self, i: usize) -> (r: (&str, &C))
        requires
            i < self.entries().len(),
        ensures
            (r.0@, *r.1) == self.entries()[i as int],
    {
        (self.rooms[i].0.as_str(), &self.rooms[i].1)
    }

    /// The rooms that have a database, each once.
    pub fn all(&self) -> (r: Vec<String>)
        ensures
            views(r@) == Seq::new(self.entries().len(), |i: int| self.entries()[i].0),
            distinct(self.entries()),
            views(r@).no_duplicates(),
    {
        proof {
            use_type_invariant(self);
        }
        let ghost wanted = Seq::new(self.entries().len(), |i: int| self.entries()[i].0);
        let mut out: Vec<String> = Vec::new();
        for i in 0..self.rooms.len()
            invariant
                wanted == Seq::new(self.entries().len(), |i: int| self.entries()[i].0),
                views(out@) == wanted.take(i as int),
        {
            let ghost before = views(out@);
            let id = self.rooms[i].0.clone();
            out.push(id);
            assert(views(out@) =~= before.push(id@));
            assert(wanted.take(i + 1) =~= before.push(id@));
        }
        assert(wanted.take(self.rooms@.len() as int) =~= wanted);
        out
    }
}

// ---------------------------------------------------------------------------------------------
// Moving from earlier layouts
// ---------------------------------------------------------------------------------------------

/// Opens the shared database beside that of a room.
pub const LEGACY_ATTACH: &'static str = "ATTACH DATABASE ?1 AS legacy";

/// Takes over the memories of a room. Those of no room go to the first one.
pub const LEGACY_MEMORIES: &'static str = "INSERT OR IGNORE INTO memories (id, key, content, category, room_id, created_at, updated_at)\n             SELECT id, key, content, category, ?1, created_at, updated_at FROM legacy.memories\n             WHERE room_id = ?1 OR (room_id IS NULL AND ?2 = 0)";

/// Takes over the messages of a room.
pub const LEGACY_MESSAGES: &'static str = "INSERT OR IGNORE INTO messages (event_id, room_id, sender, body, at)\n             SELECT event_id, room_id, sender, body, at FROM legacy.messages WHERE room_id = ?1";

/// Takes over the jobs of a room.
pub const LEGACY_JOBS: &'static str = "INSERT OR IGNORE INTO cron_jobs\n             (name, schedule, timezone, prompt, room_id, enabled, created_at, last_run, last_status)\n             SELECT name, schedule, timezone, prompt, room_id, enabled, created_at, last_run, last_status\n             FROM legacy.cron_jobs WHERE room_id = ?1";

/// Closes the shared database again.
pub const LEGACY_DETACH: &'static str = "DETACH DATABASE legacy";

/// Whether there is anything to split: the shared database, or one of the files before it.
pub fn needs_migration(legacy: bool, memory: bool, messages: bool, cron: bool) -> (r: bool)
    ensures
        r == (legacy || memory || messages || cron),
{
    legacy || memory || messages || cron
}

/// What the database of a room is asked in order to take over what is its own.
pub open spec fn taken_over(
    legacy_path: Seq<char>,
    room_id: Seq<char>,
    index: i64,
) -> Seq<StatementView> {
    Seq::empty().push(bare(LEGACY_ATTACH@).text(legacy_path)).push(
        bare(LEGACY_MEMORIES@).text(room_id).number(index),
    ).push(bare(LEGACY_MESSAGES@).text(room_id)).push(bare(LEGACY_JOBS@).text(room_id)).push(
        bare(LEGACY_DETACH@),
    )
}

/// What the database of a room is asked in order to take over what is its own, given the position
/// of the room among all.
pub fn migrate_legacy(legacy_path: &str, room_id: &str, index: i64) -> (r: Vec<Statement>)
    ensures
        statement_views(r@) == taken_over(legacy_path@, room_id@, index),
{
    let mut out: Vec<Statement> = Vec::new();
    out.push(Statement::new(LEGACY_ATTACH).text(legacy_path));
    out.push(Statement::new(LEGACY_MEMORIES).text(room_id).number(index));
    out.push(Statement::new(LEGACY_MESSAGES).text(room_id));
    out.push(Statement::new(LEGACY_JOBS).text(room_id));
    out.push(Statement::new(LEGACY_DETACH));
    assert(statement_views(out@) =~= taken_over(legacy_path@, room_id@, index));
    out
}

/// The name that a file gets once it has been moved: the first choice, or a numbered one.
pub open spec fn migrated(file: Seq<char>, attempt: nat) -> Seq<char> {
    if attempt == 0 {
        file + ".migrated"@
    } else {
        file + ".migrated"@ + "."@ + decimal(attempt)
    }
}

/// The name that a file gets once it has been moved: the first choice, or a numbered one.
pub fn migrated_name(file: &str, attempt: u64) -> (r: String)
    ensures
        r@ == migrated(file@, attempt as nat),
{
    let mut out = owned(file);
    out.append(".migrated");
    if attempt > 0 {
        out.append(".");
        out.append(decimal_of(attempt).as_str());
    }
    out
}

/// Different attempts give different names.
proof fn lemma_migrated_differ(file: Seq<char>, a: nat, b: nat)
    requires
        migrated(file, a) == migrated(file, b),
    ensures
        a == b,
{
    let base = file + ".migrated"@;
    reveal_strlit(".");
    lemma_decimal_value(a);
    lemma_decimal_value(b);
    if a > 0 && b > 0 {
        let n = (base + "."@).len() as int;
        assert(migrated(file, a).skip(n) =~= decimal(a));
        assert(migrated(file, b).skip(n) =~= decimal(b));
    } else if a > 0 {
        assert(migrated(file, a).len() > base.len());
    } else if b > 0 {
        assert(migrated(file, b).len() > base.len());
    }
}

/// The first name that nothing has yet.
pub open spec fn first_free(taken: Seq<Seq<char>>, file: Seq<char>, attempt: nat) -> bool {
    &&& !taken.contains(migrated(file, attempt))
    &&& forall|earlier: nat| earlier < attempt ==> taken.contains(#[trigger] migrated(file, earlier))
}

/// A name for a file that is moved out of the way, which nothing in its directory has yet: the
/// first choice, or the lowest numbered one that is free.
pub fn unique_migrated_name(taken: &[String], file: &str) -> (r: String)
    ensures
        exists|attempt: nat|
            r@ == migrated(file@, attempt) && #[trigger] first_free(views(taken@), file@, attempt),
{
    let ghost names = views(taken@);
    let ghost mut left = names.to_set();
    proof {
        vstd::seq_lib::seq_to_set_is_finite(names);
        names.lemma_cardinality_of_set();
    }
    let count: usize = taken.len();
    let mut attempt: u64 = 0;
    loop
        invariant
            names == views(taken@),
            count == taken@.len(),
            left.finite(),
            left.len() + attempt <= count,
            forall|n: Seq<char>| #[trigger] left.contains(n) ==> names.contains(n),
            forall|n: Seq<char>|
                names.contains(n) && !(#[trigger] left.contains(n)) ==> exists|e: nat|
                    e < attempt && n == #[trigger] migrated(file@, e),
            forall|e: nat| e < attempt ==> names.contains(#[trigger] migrated(file@, e)),
        decreases left.len(),
    {
        let name = migrated_name(file, attempt);
        if !holds(taken, name.as_str()) {
            assert(first_free(names, file@, attempt as nat));
            return name;
        }
        proof {
            if !left.contains(name@) {
                let e = choose|e: nat| e < attempt && name@ == #[trigger] migrated(file@, e);
                lemma_migrated_differ(file@, e, attempt as nat);
            }
            let before = left;
            left = left.remove(name@);
            assert forall|n: Seq<char>| names.contains(n) && !(#[trigger] left.contains(n)) implies
                exists|e: nat| e < attempt + 1 && n == #[trigger] migrated(file@, e) by {
                if n == name@ {
                    assert(n == migrated(file@, attempt as nat));
                } else {
                    assert(!before.contains(n));
                    let e = choose|e: nat| e < attempt && n == #[trigger] migrated(file@, e);
                    assert(n == migrated(file@, e));
                }
            }
        }
        attempt = attempt + 1;
    }
}

/// The files that a database keeps beside itself.
pub open spec fn beside(file: Seq<char>) -> Seq<Seq<char>> {
    Seq::empty().push(file + "-wal"@).push(file + "-shm"@)
}

/// The files that a database keeps beside itself.
pub fn companions(file: &str) -> (r: Vec<String>)
    ensures
        views(r@) == beside(file@),
{
    let mut wal = owned(file);
    wal.append("-wal");
    let mut shm = owned(file);
    shm.append("-shm");
    let mut out: Vec<String> = Vec::new();
    out.push(wal);
    out.push(shm);
    assert(views(out@) =~= beside(file@));
    out
}

/// One of the files that held a table each.
pub struct Source {
    pub file: &'static str,
    pub table: &'static str,
    pub columns: &'static str,
}

/// The files that held a table each, in the order in which they are taken in.
pub open spec fn split_files() -> Seq<Source> {
    Seq::empty().push(
        Source {
            file: "memory.db",
            table: "memories",
            columns: "id, key, content, category, room_id, created_at, updated_at",
        },
    ).push(
        Source {
            file: "messages.db",
            table: "messages",
            columns: "event_id, room_id, sender, body, at",
        },
    ).push(
        Source {
            file: "cron.db",
            table: "cron_jobs",
            columns:
                "name, schedule, timezone, prompt, room_id, enabled, created_at, last_run, last_status",
        },
    )
}

/// The files that held a table each, in the order in which they are taken in.
pub fn sources() -> (r: Vec<Source>)
    ensures
        r@ == split_files(),
{
    let mut out: Vec<Source> = Vec::new();
    out.push(
        Source {
            file: "memory.db",
            table: "memories",
            columns: "id, key, content, category, room_id, created_at, updated_at",
        },
    );
    out.push(
        Source {
            file: "messages.db",
            table: "messages",
            columns: "event_id, room_id, sender, body, at",
        },
    );
    out.push(
        Source {
            file: "cron.db",
            table: "cron_jobs",
            columns:
                "name, schedule, timezone, prompt, room_id, enabled, created_at, last_run, last_status",
        },
    );
    assert(out@ =~= split_files());
    out
}

/// What the database is asked in order to take in a file.
pub open spec fn taken_in(source: Source, path: Seq<char>) -> Seq<StatementView> {
    Seq::empty().push(bare("ATTACH DATABASE '"@ + path + "' AS old;"@)).push(
        bare(
            "INSERT OR IGNORE INTO main."@ + source.table@ + " ("@ + source.columns@ + ") SELECT "@
                + source.columns@ + " FROM old."@ + source.table@,
        ),
    ).push(bare("DETACH DATABASE old;"@))
}

/// What the database is asked in order to take in a file; the second statement counts the rows.
pub fn migrate_from_split_files(source: &Source, path: &str) -> (r: Vec<Statement>)
    ensures
        statement_views(r@) == taken_in(*source, path@),
{
    let mut attach = owned("ATTACH DATABASE '");
    attach.append(path);
    attach.append("' AS old;");
    let mut copy = owned("INSERT OR IGNORE INTO main.");
    copy.append(source.table);
    copy.append(" (");
    copy.append(source.columns);
    copy.append(") SELECT ");
    copy.append(source.columns);
    copy.append(" FROM old.");
    copy.append(source.table);
    let mut out: Vec<Statement> = Vec::new();
    out.push(Statement::new(attach.as_str()));
    out.push(Statement::new(copy.as_str()));
    out.push(Statement::new("DETACH DATABASE old;"));
    assert(statement_views(out@) =~= taken_in(*source, path@));
    out
}

// ---------------------------------------------------------------------------------------------
// Free queries
// ---------------------------------------------------------------------------------------------

/// What the reading of a statement is in the middle of, before its first word.
pub enum Reading {
    /// Nothing.
    Gap,
    /// A comment to the end of the line.
    Line,
    /// A comment to where it is closed.
    Block,
}

/// Whether a character may stand before the first word of a statement.
pub open spec fn gap(c: char) -> bool {
    c == ' ' || c == '\t' || c == '\n' || c == '\u{c}' || c == '\r' || c == ';' || c == '\u{feff}'
}

/// A statement from its first word on: without the white space, the comments and the semicolons
/// before it.
pub open spec fn opening(sql: Seq<char>, reading: Reading) -> Seq<char>
    decreases sql.len(),
{
    if sql.len() == 0 {
        sql
    } else {
        match reading {
            Reading::Gap => if gap(sql[0]) {
                opening(sql.skip(1), Reading::Gap)
            } else if sql.len() > 1 && sql[0] == '-' && sql[1] == '-' {
                opening(sql.skip(2), Reading::Line)
            } else if sql.len() > 1 && sql[0] == '/' && sql[1] == '*' {
                opening(sql.skip(2), Reading::Block)
            } else {
                sql
            },
            Reading::Line => if sql[0] == '\n' {
                opening(sql.skip(1), Reading::Gap)
            } else {
                opening(sql.skip(1), Reading::Line)
            },
            Reading::Block => if sql.len() > 1 && sql[0] == '*' && sql[1] == '/' {
                opening(sql.skip(2), Reading::Gap)
            } else {
                opening(sql.skip(1), Reading::Block)
            },
        }
    }
}

/// Whether a character may go on a word of a statement.
pub open spec fn in_word(c: char) -> bool {
    ascii_alphanumeric(c) || c == '_' || c == '$' || c > '\u{7f}'
}

/// Whether the first word of a text is the given one, in whichever case.
pub open spec fn first_word_is(s: Seq<char>, word: Seq<char>) -> bool {
    begins(lowered(s), word) && (s.len() == word.len() || !in_word(s[word.len() as int]))
}

/// Whether a statement may be asked: one that reads, and that is a SELECT, a WITH or an EXPLAIN.
pub open spec fn askable(sql: Seq<char>, readonly: bool) -> bool {
    let s = opening(sql, Reading::Gap);
    readonly && (first_word_is(s, "select"@) || first_word_is(s, "with"@) || first_word_is(
        s,
        "explain"@,
    ))
}

/// Finds the first word of a statement.
fn skip_gaps(sql: &Vec<char>) -> (r: usize)
    ensures
        r <= sql@.len(),
        sql@.skip(r as int) == opening(sql@, Reading::Gap),
{
    let mut i: usize = 0;
    let mut reading = Reading::Gap;
    assert(sql@.skip(0) =~= sql@);
    while i < sql.len()
        invariant_except_break
            i <= sql@.len(),
            opening(sql@.skip(i as int), reading) == opening(sql@, Reading::Gap),
        ensures
            i <= sql@.len(),
            sql@.skip(i as int) == opening(sql@, Reading::Gap),
        decreases sql@.len() - i,
    {
        let ghost rest = sql@.skip(i as int);
        let c = sql[i];
        let d: Option<char> = if i + 1 < sql.len() {
            Some(sql[i + 1])
        } else {
            None
        };
        assert(rest.skip(1) =~= sql@.skip(i + 1));
        assert(i + 1 < sql@.len() ==> rest.skip(2) =~= sql@.skip(i + 2));
        match reading {
            Reading::Gap => {
                if c == ' ' || c == '\t' || c == '\n' || c == '\u{c}' || c == '\r' || c == ';' || c
                    == '\u{feff}' {
                    i = i + 1;
                } else if c == '-' && d == Some('-') {
                    i = i + 2;
                    reading = Reading::Line;
                } else if c == '/' && d == Some('*') {
                    i = i + 2;
                    reading = Reading::Block;
                } else {
                    break;
                }
            },
            Reading::Line => {
                i = i + 1;
                if c == '\n' {
                    reading = Reading::Gap;
                }
            },
            Reading::Block => {
                if c == '*' && d == Some('/') {
                    i = i + 2;
                    reading = Reading::Gap;
                } else {
                    i = i + 1;
                }
            },
        }
    }
    i
}

/// Whether the first word of a text is the given one, in whichever case.
fn begins_with_word(s: &str, word: &str) -> (r: bool)
    ensures
        r == first_word_is(s@, word@),
{
    let lower = to_ascii_lowercase(s);
    match after_prefix(lower.as_str(), word) {
        Some(_) => {
            let chars = chars_of(s);
            let n: usize = word.unicode_len();
            if chars.len() == n {
                true
            } else {
                let c = chars[n];
                !(is_ascii_alphanumeric(c) || c == '_' || c == '$' || c > '\u{7f}')
            }
        },
        None => false,
    }
}

/// Decides whether a statement may be asked, before it is. `readonly` is what the database says of
/// it.
pub fn may_ask(sql: &str, readonly: bool) -> (r: bool)
    ensures
        r == askable(sql@, readonly),
{
    let chars = chars_of(sql);
    let from = skip_gaps(&chars);
    let rest = slice_of(&chars, from, chars.len());
    assert(rest@ =~= sql@.skip(from as int));
    let s = string_of(rest.as_slice());
    readonly && (begins_with_word(s.as_str(), "select") || begins_with_word(s.as_str(), "with")
        || begins_with_word(s.as_str(), "explain"))
}

/// A value in a row.
pub enum Cell {
    Null,
    Integer(i64),
    /// A real number, as it is written.
    Real(String),
    /// Text, as the database holds it.
    Text(Vec<u8>),
    /// A blob, of which only the length is shown.
    Blob(u64),
    Unreadable,
}

/// How a value reads.
pub open spec fn cell_text(c: Cell) -> Seq<char> {
    match c {
        Cell::Null => "NULL"@,
        Cell::Integer(n) => signed_decimal(n as int),
        Cell::Real(s) => s@,
        Cell::Text(bytes) => lossy(bytes@),
        Cell::Blob(n) => "<"@ + decimal(n as nat) + " bytes>"@,
        Cell::Unreadable => "?"@,
    }
}

/// How a value reads.
fn render_cell(c: &Cell) -> (r: String)
    ensures
        r@ == cell_text(*c),
{
    match c {
        Cell::Null => owned("NULL"),
        Cell::Integer(n) => signed_decimal_of(*n),
        Cell::Real(s) => s.clone(),
        Cell::Text(bytes) => from_utf8_lossy(bytes.as_slice()),
        Cell::Blob(n) => {
            let mut out = owned("<");
            out.append(decimal_of(*n).as_str());
            out.append(" bytes>");
            out
        },
        Cell::Unreadable => owned("?"),
    }
}

/// How a row reads.
pub open spec fn row_text(row: Seq<Cell>) -> Seq<char> {
    joined(Seq::new(row.len(), |i: int| cell_text(row[i])), " | "@)
}

/// How a row reads.
fn render_row(row: &[Cell]) -> (r: String)
    ensures
        r@ == row_text(row@),
{
    let ghost wanted = Seq::new(row@.len(), |i: int| cell_text(row@[i]));
    let mut cells: Vec<String> = Vec::new();
    for i in 0..row.len()
        invariant
            wanted == Seq::new(row@.len(), |i: int| cell_text(row@[i])),
            views(cells@) == wanted.take(i as int),
    {
        let ghost before = views(cells@);
        let text = render_cell(&row[i]);
        cells.push(text);
        assert(views(cells@) =~= before.push(text@));
        assert(wanted.take(i + 1) =~= before.push(text@));
    }
    assert(wanted.take(row@.len() as int) =~= wanted);
    join(cells.as_slice(), " | ")
}

/// How many rows are shown.
pub open spec fn shown(rows: nat, max_rows: nat) -> nat {
    if rows <= max_rows {
        rows
    } else {
        max_rows
    }
}

/// The lines of a result: the columns, the rows as far as they are shown, and a note where there
/// are more.
pub open spec fn result_lines(
    columns: Seq<Seq<char>>,
    rows: Seq<Vec<Cell>>,
    max_rows: nat,
) -> Seq<Seq<char>> {
    let shown_rows = Seq::new(shown(rows.len(), max_rows), |i: int| row_text(rows[i]@));
    let all = seq![joined(columns, " | "@)] + shown_rows;
    if rows.len() > max_rows {
        all.push("\u{2026} stopped at "@ + decimal(max_rows) + " rows"@)
    } else {
        all
    }
}

/// How a result reads.
pub open spec fn result_text(
    columns: Seq<Seq<char>>,
    rows: Seq<Vec<Cell>>,
    max_rows: nat,
) -> Seq<char> {
    if shown(rows.len(), max_rows) == 0 {
        "No rows."@
    } else {
        joined(result_lines(columns, rows, max_rows), "\n"@)
    }
}

/// Answers a free query. A statement that may not be asked is refused. Of the rows, one more than
/// are shown is enough.
pub fn query(
    sql: &str,
    readonly: bool,
    columns: &[String],
    rows: &[Vec<Cell>],
    max_rows: usize,
) -> (r: Result<String, DbError>)
    ensures
        match r {
            Ok(text) => askable(sql@, readonly) && text@ == result_text(
                views(columns@),
                rows@,
                max_rows as nat,
            ),
            Err(e) => !askable(sql@, readonly) && e == DbError::Writes,
        },
{
    if !may_ask(sql, readonly) {
        return Err(DbError::Writes);
    }
    let ghost wanted = result_lines(views(columns@), rows@, max_rows as nat);
    let ghost shown_rows = Seq::new(
        shown(rows@.len(), max_rows as nat),
        |i: int| row_text(rows@[i]@),
    );
    let count: usize = if rows.len() <= max_rows {
        rows.len()
    } else {
        max_rows
    };
    if count == 0 {
        return Ok(owned("No rows."));
    }
    let mut out: Vec<String> = Vec::new();
    let header = join(columns, " | ");
    out.push(header);
    assert(views(out@) =~= seq![header@] + shown_rows.take(0));
    for i in 0..count
        invariant
            count <= rows@.len(),
            shown_rows.len() == count,
            forall|j: int| 0 <= j < count ==> #[trigger] shown_rows[j] == row_text(rows@[j]@),
            views(out@) == seq![header@] + shown_rows.take(i as int),
    {
        let ghost before = views(out@);
        let line = render_row(rows[i].as_slice());
        out.push(line);
        assert(views(out@) =~= before.push(line@));
        assert(line@ == shown_rows[i as int]);
        assert(seq![header@] + shown_rows.take(i + 1) =~= before.push(line@));
    }
    assert(shown_rows.take(count as int) =~= shown_rows);
    if rows.len() > max_rows {
        let ghost before = views(out@);
        let mut note = owned("\u{2026} stopped at ");
        note.append(decimal_of(max_rows as u64).as_str());
        note.append(" rows");
        out.push(note);
        assert(views(out@) =~= before.push(note@));
    }
    assert(views(out@) =~= wanted);
    Ok(join(out.as_slice(), "\n"))
}

// ---------------------------------------------------------------------------------------------
// Laws
// ---------------------------------------------------------------------------------------------

/// A value is bound behind those that were bound before, and changes neither them nor the text of
/// the statement.
pub proof fn law_values_are_bound_in_order(
    before: Statement,
    s: &str,
    n: i64,
    a: Statement,
    b: Statement,
    c: Statement,
)
    requires
        call_ensures(Statement::text, (before, s), a),
        call_ensures(Statement::number, (before, n), b),
        call_ensures(Statement::optional, (before, None), c),
    ensures
        a.sql@ == before.sql@,
        b.sql@ == before.sql@,
        c.sql@ == before.sql@,
        a@.params == before@.params.push(ParamView::Text(s@)),
        b@.params == before@.params.push(ParamView::Int(n)),
        c@.params == before@.params.push(ParamView::Null),
{
}

/// A new statement has its text and no value yet.
pub proof fn law_a_new_statement_binds_nothing(sql: &str, r: Statement)
    requires
        call_ensures(Statement::new, (sql,), r),
    ensures
        r.sql@ == sql@,
        r.params@.len() == 0,
{
    assert(r@.params.len() == r.params@.len());
}

/// The number that a hexadecimal digit stands for.
pub open spec fn digit_of_hex(c: char) -> int {
    if '0' <= c <= '9' {
        c as int - '0' as int
    } else {
        c as int - 'a' as int + 10
    }
}

/// Byte by byte, hexadecimal can be read again.
proof fn lemma_hex_read(bytes: Seq<u8>, i: int)
    requires
        0 <= i < bytes.len(),
    ensures
        2 * i + 1 < hex(bytes).len(),
        16 * digit_of_hex(hex(bytes)[2 * i]) + digit_of_hex(hex(bytes)[2 * i + 1]) == bytes[i],
    decreases bytes.len(),
{
    lemma_hex(bytes);
    lemma_hex(bytes.drop_last());
    if i < bytes.len() - 1 {
        lemma_hex_read(bytes.drop_last(), i);
    }
}

/// Every byte is written with two digits, the higher one first, in the order of the bytes.
pub proof fn law_bytes_are_written_one_by_one(bytes: &[u8], r: String, i: int)
    requires
        call_ensures(hex_of, (bytes,), r),
        0 <= i < bytes@.len(),
    ensures
        r@.len() == 2 * bytes@.len(),
        is_hex(r@[2 * i]) && is_hex(r@[2 * i + 1]),
        16 * digit_of_hex(r@[2 * i]) + digit_of_hex(r@[2 * i + 1]) == bytes@[i],
{
    lemma_hex(bytes@);
    lemma_hex_read(bytes@, i);
}

/// A room is filed under the digest of its id: every byte of the digest can be read in the key.
pub proof fn law_a_room_is_filed_under_its_digest(room_id: &str, r: String, i: int)
    requires
        call_ensures(room_key, (room_id,), r),
        0 <= i < 32,
    ensures
        r@.len() == 64,
        sha256(vstd::utf8::encode_utf8(room_id@)).len() == 32,
        16 * digit_of_hex(r@[2 * i]) + digit_of_hex(r@[2 * i + 1]) == sha256(
            vstd::utf8::encode_utf8(room_id@),
        )[i],
{
    lemma_hex(sha256(vstd::utf8::encode_utf8(room_id@)));
    lemma_hex_read(sha256(vstd::utf8::encode_utf8(room_id@)), i);
}

/// There is one file for each room, in the order of the rooms: the key of the room, and the suffix
/// of a database.
pub proof fn law_every_room_has_its_file<C>(
    room_ids: &[String],
    r: Result<Vec<String>, DbError>,
    room_id: &str,
    key: String,
    i: int,
)
    requires
        call_ensures(RoomDbs::<C>::open, (room_ids,), r),
        call_ensures(room_key, (room_id,), key),
        0 <= i < room_ids@.len(),
        room_ids@[i]@ == room_id@,
    ensures
        r is Ok,
        r->Ok_0@.len() == room_ids@.len(),
        r->Ok_0@[i]@ == key@ + ".db"@,
{
    let files = views(r->Ok_0@);
    assert(files.len() == r->Ok_0@.len());
    assert(files[i] == r->Ok_0@[i]@);
}

/// Without rooms there is nothing to open.
pub proof fn law_without_rooms_nothing_is_opened<C>(
    room_ids: &[String],
    r: Result<Vec<String>, DbError>,
)
    requires
        call_ensures(RoomDbs::<C>::open, (room_ids,), r),
        room_ids@.len() == 0,
    ensures
        r == Err::<Vec<String>, DbError>(DbError::NoRooms),
{
}

/// A room gets back the database that was filed under it last, and no other room gets another one
/// than before.
pub proof fn law_a_database_is_found_under_its_room<C>(
    dbs: &mut RoomDbs<C>,
    room_id: &str,
    c: C,
    other: &str,
    own: Result<&C, DbError>,
    before: Result<&C, DbError>,
    after: Result<&C, DbError>,
)
    requires
        call_ensures(RoomDbs::<C>::insert, (dbs, room_id, c), ()),
        call_ensures(RoomDbs::<C>::get, (final(dbs), room_id), own),
        call_ensures(RoomDbs::<C>::get, (old(dbs), other), before),
        call_ensures(RoomDbs::<C>::get, (final(dbs), other), after),
        other@ != room_id@,
    ensures
        own matches Ok(found) && *found == c,
        before is Ok <==> after is Ok,
        before is Ok ==> *before->Ok_0 == *after->Ok_0,
        after is Err ==> (after->Err_0 matches DbError::NoDatabase(id) && id@ == other@),
{
    assert(handle(final(dbs).entries(), room_id@) == Some(c));
    assert(handle(final(dbs).entries(), other@) == handle(old(dbs).entries(), other@));
}

/// Where nothing has been filed, no room has a database, and the room is named.
pub proof fn law_nothing_is_found_where_nothing_is_filed<C>(
    dbs: &RoomDbs<C>,
    room_id: &str,
    r: Result<&C, DbError>,
)
    requires
        call_ensures(RoomDbs::<C>::new, (), *dbs),
        call_ensures(RoomDbs::<C>::get, (dbs, room_id), r),
    ensures
        r matches Err(DbError::NoDatabase(id)) && id@ == room_id@,
{
    assert(handle(dbs.entries(), room_id@) is None);
}

/// A room is taken over from the shared database with its own id, and the shared database is
/// opened first and closed last.
pub proof fn law_a_room_takes_over_its_own(
    legacy_path: &str,
    room_id: &str,
    index: i64,
    r: Vec<Statement>,
    i: int,
)
    requires
        call_ensures(migrate_legacy, (legacy_path, room_id, index), r),
        0 < i < 4,
    ensures
        r@.len() == 5,
        r@[0]@.params == seq![ParamView::Text(legacy_path@)],
        r@[i]@.params.len() == (if i == 1 {
            2int
        } else {
            1int
        }),
        r@[i]@.params[0] == ParamView::Text(room_id@),
        r@[1]@.params[1] == ParamView::Int(index),
        r@[4]@.params.len() == 0,
        begins(r@[0].sql@, "ATTACH DATABASE ?1"@),
        begins(r@[1].sql@, "INSERT OR IGNORE INTO memories "@),
        begins(r@[2].sql@, "INSERT OR IGNORE INTO messages "@),
        begins(r@[3].sql@, "INSERT OR IGNORE INTO cron_jobs"@),
        ends(r@[1].sql@, "WHERE room_id = ?1 OR (room_id IS NULL AND ?2 = 0)"@),
        ends(r@[2].sql@, "FROM legacy.messages WHERE room_id = ?1"@),
        ends(r@[3].sql@, "FROM legacy.cron_jobs WHERE room_id = ?1"@),
        begins(r@[4].sql@, "DETACH DATABASE"@),
{
    let s = statement_views(r@);
    assert(s.len() == r@.len());
    assert(forall|j: int| 0 <= j < r@.len() ==> s[j] == (#[trigger] r@[j])@);
    assert(r@[0]@ == s[0] && r@[1]@ == s[1] && r@[2]@ == s[2] && r@[3]@ == s[3] && r@[4]@ == s[4]);
    assert(r@[0]@.params =~= seq![ParamView::Text(legacy_path@)]);
    lemma_legacy_edges();
    lemma_legacy_memories();
    lemma_legacy_messages();
    lemma_legacy_jobs();
}

/// How the statements begin that open and close the shared database.
proof fn lemma_legacy_edges()
    ensures
        begins(LEGACY_ATTACH@, "ATTACH DATABASE ?1"@),
        begins(LEGACY_DETACH@, "DETACH DATABASE"@),
{
    reveal_strlit("ATTACH DATABASE ?1 AS legacy");
    reveal_strlit("ATTACH DATABASE ?1");
    reveal_strlit("DETACH DATABASE legacy");
    reveal_strlit("DETACH DATABASE");
    assert(LEGACY_ATTACH@.subrange(0, "ATTACH DATABASE ?1"@.len() as int) =~= "ATTACH DATABASE ?1"@);
    assert(LEGACY_DETACH@.subrange(0, "DETACH DATABASE"@.len() as int) =~= "DETACH DATABASE"@);
}

/// Where the memories of a room come from and go to.
proof fn lemma_legacy_memories()
    ensures
        begins(LEGACY_MEMORIES@, "INSERT OR IGNORE INTO memories "@),
        ends(LEGACY_MEMORIES@, "WHERE room_id = ?1 OR (room_id IS NULL AND ?2 = 0)"@),
{
    reveal_strlit("INSERT OR IGNORE INTO memories (id, key, content, category, room_id, created_at, updated_at)\n             SELECT id, key, content, category, ?1, created_at, updated_at FROM legacy.memories\n             WHERE room_id = ?1 OR (room_id IS NULL AND ?2 = 0)");
    reveal_strlit("INSERT OR IGNORE INTO memories ");
    reveal_strlit("WHERE room_id = ?1 OR (room_id IS NULL AND ?2 = 0)");
    let start = "INSERT OR IGNORE INTO memories "@;
    let end = "WHERE room_id = ?1 OR (room_id IS NULL AND ?2 = 0)"@;
    assert(LEGACY_MEMORIES@.subrange(0, start.len() as int) =~= start);
    assert(LEGACY_MEMORIES@.skip(LEGACY_MEMORIES@.len() - end.len()) =~= end);
}

/// Where the messages of a room come from and go to.
proof fn lemma_legacy_messages()
    ensures
        begins(LEGACY_MESSAGES@, "INSERT OR IGNORE INTO messages "@),
        ends(LEGACY_MESSAGES@, "FROM legacy.messages WHERE room_id = ?1"@),
{
    reveal_strlit("INSERT OR IGNORE INTO messages (event_id, room_id, sender, body, at)\n             SELECT event_id, room_id, sender, body, at FROM legacy.messages WHERE room_id = ?1");
    reveal_strlit("INSERT OR IGNORE INTO messages ");
    reveal_strlit("FROM legacy.messages WHERE room_id = ?1");
    let start = "INSERT OR IGNORE INTO messages "@;
    let end = "FROM legacy.messages WHERE room_id = ?1"@;
    assert(LEGACY_MESSAGES@.subrange(0, start.len() as int) =~= start);
    assert(LEGACY_MESSAGES@.skip(LEGACY_MESSAGES@.len() - end.len()) =~= end);
}

/// Where the jobs of a room come from and go to.
proof fn lemma_legacy_jobs()
    ensures
        begins(LEGACY_JOBS@, "INSERT OR IGNORE INTO cron_jobs"@),
        ends(LEGACY_JOBS@, "FROM legacy.cron_jobs WHERE room_id = ?1"@),
{
    reveal_strlit("INSERT OR IGNORE INTO cron_jobs\n             (name, schedule, timezone, prompt, room_id, enabled, created_at, last_run, last_status)\n             SELECT name, schedule, timezone, prompt, room_id, enabled, created_at, last_run, last_status\n             FROM legacy.cron_jobs WHERE room_id = ?1");
    reveal_strlit("INSERT OR IGNORE INTO cron_jobs");
    reveal_strlit("FROM legacy.cron_jobs WHERE room_id = ?1");
    let start = "INSERT OR IGNORE INTO cron_jobs"@;
    let end = "FROM legacy.cron_jobs WHERE room_id = ?1"@;
    assert(LEGACY_JOBS@.subrange(0, start.len() as int) =~= start);
    assert(LEGACY_JOBS@.skip(LEGACY_JOBS@.len() - end.len()) =~= end);
}

/// A file that is moved keeps its name in front, the first attempt adds nothing but the mark, and
/// two attempts never give the same name.
pub proof fn law_attempts_give_different_names(
    file: &str,
    a: u64,
    b: u64,
    first: String,
    second: String,
)
    requires
        call_ensures(migrated_name, (file, a), first),
        call_ensures(migrated_name, (file, b), second),
    ensures
        begins(first@, file@ + ".migrated"@),
        a == 0 ==> first@ == file@ + ".migrated"@,
        a > 0 ==> crate::text::parsed_u64(first@.skip((file@.len() + ".migrated."@.len()) as int))
            == Some(a),
        first@ == second@ ==> a == b,
{
    let base = file@ + ".migrated"@;
    reveal_strlit(".");
    reveal_strlit(".migrated");
    reveal_strlit(".migrated.");
    if first@ == second@ {
        lemma_migrated_differ(file@, a as nat, b as nat);
    }
    if a > 0 {
        assert(first@.skip((file@.len() + ".migrated."@.len()) as int) =~= decimal(a as nat));
        crate::text::law_a_written_number_is_read_back(a);
    }
    assert(first@.subrange(0, base.len() as int) =~= base);
}

/// A file is moved to a name that nothing has, and to the plain one wherever that is free.
pub proof fn law_a_file_is_moved_to_a_free_name(taken: &[String], file: &str, r: String)
    requires
        call_ensures(unique_migrated_name, (taken, file), r),
    ensures
        !views(taken@).contains(r@),
        begins(r@, file@ + ".migrated"@),
        !views(taken@).contains(file@ + ".migrated"@) ==> r@ == file@ + ".migrated"@,
{
    let attempt = choose|attempt: nat|
        r@ == migrated(file@, attempt) && #[trigger] first_free(views(taken@), file@, attempt);
    let base = file@ + ".migrated"@;
    assert(r@.subrange(0, base.len() as int) =~= base);
    if attempt > 0 {
        assert(views(taken@).contains(migrated(file@, 0)));
    }
}

/// Beside a database lie its log and its index, each under the name of the database.
pub proof fn law_companions_are_named_after_their_database(file: &str, r: Vec<String>)
    requires
        call_ensures(companions, (file,), r),
    ensures
        r@.len() == 2,
        forall|i: int| 0 <= i < 2 ==> begins((#[trigger] r@[i])@, file@),
        forall|i: int| 0 <= i < 2 ==> (#[trigger] r@[i])@.len() == file@.len() + 4,
        ends(r@[0]@, "-wal"@),
        ends(r@[1]@, "-shm"@),
{
    let names = views(r@);
    assert(names.len() == r@.len());
    assert(names[0] == r@[0]@ && names[1] == r@[1]@);
    lemma_added(file@, "-wal"@);
    lemma_added(file@, "-shm"@);
    reveal_strlit("-wal");
    reveal_strlit("-shm");
}

/// A file is opened by its path, its columns are copied between tables of the same name, and it is
/// closed again.
pub proof fn law_a_file_is_taken_in_table_by_table(source: &Source, path: &str, r: Vec<Statement>)
    requires
        call_ensures(migrate_from_split_files, (source, path), r),
    ensures
        r@.len() == 3,
        forall|i: int| 0 <= i < 3 ==> (#[trigger] r@[i])@.params.len() == 0,
        begins(r@[0].sql@, "ATTACH DATABASE '"@),
        contains(r@[0].sql@, path@),
        ends(r@[0].sql@, "' AS old;"@),
        begins(r@[1].sql@, "INSERT OR IGNORE INTO main."@ + source.table@),
        contains(
            r@[1].sql@,
            " ("@ + source.columns@ + ") SELECT "@ + source.columns@ + " FROM old."@,
        ),
        ends(r@[1].sql@, source.table@),
        begins(r@[2].sql@, "DETACH"@),
{
    let s = statement_views(r@);
    assert(s.len() == r@.len());
    assert(s[0] == r@[0]@ && s[1] == r@[1]@ && s[2] == r@[2]@);
    let t = source.table@;
    let c = source.columns@;
    lemma_parts("ATTACH DATABASE '"@, path@, "' AS old;"@);
    let head = "INSERT OR IGNORE INTO main."@ + t;
    let middle = " ("@ + c + ") SELECT "@ + c + " FROM old."@;
    assert(r@[1].sql@ == head + middle + t) by {
        assert(head + " ("@ + c + ") SELECT "@ + c + " FROM old."@ =~= head + middle);
    }
    lemma_parts(head, middle, t);
    assert(begins("DETACH DATABASE old;"@, "DETACH"@)) by {
        reveal_strlit("DETACH DATABASE old;");
        reveal_strlit("DETACH");
        assert("DETACH DATABASE old;"@.subrange(0, 6) =~= "DETACH"@);
    }
}

/// White space and semicolons before a statement do not matter, nor does what the statement is:
/// one that writes is never asked.
pub proof fn law_gaps_do_not_matter(
    sql: &str,
    longer: &str,
    c: char,
    readonly: bool,
    a: bool,
    b: bool,
)
    requires
        call_ensures(may_ask, (sql, readonly), a),
        call_ensures(may_ask, (longer, readonly), b),
        longer@ == seq![c] + sql@,
        c == ' ' || c == '\t' || c == '\n' || c == '\r' || c == ';',
    ensures
        a == b,
        !readonly ==> !a,
{
    assert(longer@.skip(1) =~= sql@);
}

/// What a comment to the end of the line holds is passed over.
proof fn lemma_line_comment(note: Seq<char>, sql: Seq<char>)
    requires
        forall|i: int| 0 <= i < note.len() ==> note[i] != '\n',
    ensures
        opening(note + seq!['\n'] + sql, Reading::Line) == opening(sql, Reading::Gap),
    decreases note.len(),
{
    let s = note + seq!['\n'] + sql;
    if note.len() == 0 {
        assert(s.skip(1) =~= sql);
    } else {
        lemma_line_comment(note.skip(1), sql);
        assert(s.skip(1) =~= note.skip(1) + seq!['\n'] + sql);
    }
}

/// What a closed comment holds is passed over.
proof fn lemma_block_comment(note: Seq<char>, sql: Seq<char>)
    requires
        forall|i: int| 0 <= i < note.len() ==> note[i] != '*',
    ensures
        opening(note + seq!['*', '/'] + sql, Reading::Block) == opening(sql, Reading::Gap),
    decreases note.len(),
{
    let s = note + seq!['*', '/'] + sql;
    if note.len() == 0 {
        assert(s.skip(2) =~= sql);
    } else {
        lemma_block_comment(note.skip(1), sql);
        assert(s.skip(1) =~= note.skip(1) + seq!['*', '/'] + sql);
    }
}

/// A comment before a statement does not matter, whether it goes to the end of its line or to where
/// it is closed.
pub proof fn law_comments_do_not_matter(
    note: Seq<char>,
    sql: &str,
    lined: &str,
    closed: &str,
    readonly: bool,
    a: bool,
    b: bool,
    c: bool,
)
    requires
        forall|i: int| 0 <= i < note.len() ==> note[i] != '\n' && note[i] != '*',
        lined@ == seq!['-', '-'] + note + seq!['\n'] + sql@,
        closed@ == seq!['/', '*'] + note + seq!['*', '/'] + sql@,
        call_ensures(may_ask, (sql, readonly), a),
        call_ensures(may_ask, (lined, readonly), b),
        call_ensures(may_ask, (closed, readonly), c),
    ensures
        a == b,
        a == c,
{
    lemma_line_comment(note, sql@);
    lemma_block_comment(note, sql@);
    assert(lined@.skip(2) =~= note + seq!['\n'] + sql@);
    assert(closed@.skip(2) =~= note + seq!['*', '/'] + sql@);
}

/// Whether a text is a word in whichever case, as the whole first word of another.
proof fn lemma_first_word(word: Seq<char>, rest: Seq<char>, wanted: Seq<char>)
    requires
        forall|i: int| 0 <= i < word.len() ==> in_word(#[trigger] word[i]),
        rest.len() > 0 ==> !in_word(rest[0]),
        forall|i: int| 0 <= i < wanted.len() ==> 'a' <= #[trigger] wanted[i] <= 'z',
    ensures
        first_word_is(word + rest, wanted) <==> lowered(word) == wanted,
{
    let s = word + rest;
    let n = wanted.len() as int;
    if lowered(word) == wanted {
        assert(lowered(s).subrange(0, n) =~= wanted);
        assert(s.len() == wanted.len() || s[n] == rest[0]);
    }
    if first_word_is(s, wanted) {
        let part = lowered(s).subrange(0, n);
        if word.len() < n {
            assert(part[word.len() as int] == wanted[word.len() as int]);
            assert(s[word.len() as int] == rest[0]);
        } else if word.len() > n {
            assert(s[n] == word[n]);
        }
        assert forall|i: int| 0 <= i < n implies lowered(word)[i] == wanted[i] by {
            assert(part[i] == wanted[i]);
            assert(s[i] == word[i]);
        }
        assert(lowered(word) =~= wanted);
    }
}

/// The first word of a statement decides, in whichever case it is written and whatever follows it:
/// a SELECT, a WITH or an EXPLAIN that only reads is asked, and nothing else is.
pub proof fn law_the_first_word_decides(
    word: Seq<char>,
    rest: Seq<char>,
    sql: &str,
    readonly: bool,
    r: bool,
)
    requires
        call_ensures(may_ask, (sql, readonly), r),
        sql@ == word + rest,
        word.len() > 0,
        forall|i: int| 0 <= i < word.len() ==> in_word(#[trigger] word[i]),
        word[0] != '\u{feff}',
        rest.len() > 0 ==> !in_word(rest[0]),
    ensures
        r <==> readonly && (lowered(word) == "select"@ || lowered(word) == "with"@ || lowered(word)
            == "explain"@),
{
    reveal_strlit("select");
    reveal_strlit("with");
    reveal_strlit("explain");
    assert(in_word(word[0]));
    assert(opening(sql@, Reading::Gap) == sql@);
    lemma_first_word(word, rest, "select"@);
    lemma_first_word(word, rest, "with"@);
    lemma_first_word(word, rest, "explain"@);
}

/// A statement that may not be asked is refused, every other is answered.
pub proof fn law_only_what_may_be_asked_is_answered(
    sql: &str,
    readonly: bool,
    columns: &[String],
    rows: &[Vec<Cell>],
    max_rows: usize,
    allowed: bool,
    r: Result<String, DbError>,
)
    requires
        call_ensures(may_ask, (sql, readonly), allowed),
        call_ensures(query, (sql, readonly, columns, rows, max_rows), r),
    ensures
        r is Ok <==> allowed,
        r is Err ==> r->Err_0 == DbError::Writes,
        r is Ok && (rows@.len() == 0 || max_rows == 0) ==> r->Ok_0@ == "No rows."@,
{
}

/// Every value of every row that is shown can be read in the answer, and so can every column.
pub proof fn law_every_value_is_shown(
    sql: &str,
    readonly: bool,
    columns: &[String],
    rows: &[Vec<Cell>],
    max_rows: usize,
    r: Result<String, DbError>,
    i: int,
    j: int,
    k: int,
)
    requires
        call_ensures(query, (sql, readonly, columns, rows, max_rows), r),
        r is Ok,
        0 <= i < rows@.len() && i < max_rows,
        0 <= j < rows@[i]@.len(),
        0 <= k < columns@.len(),
    ensures
        contains(r->Ok_0@, columns@[k]@),
        rows@[i]@[j] is Null ==> contains(r->Ok_0@, "NULL"@),
        rows@[i]@[j] matches Cell::Integer(n) ==> n >= 0 ==> contains(
            r->Ok_0@,
            decimal(n as nat),
        ),
        rows@[i]@[j] matches Cell::Integer(n) ==> n < 0 ==> contains(
            r->Ok_0@,
            seq!['-'] + decimal((-n) as nat),
        ),
        rows@[i]@[j] matches Cell::Real(s) ==> contains(r->Ok_0@, s@),
        rows@[i]@[j] matches Cell::Text(bytes) ==> contains(r->Ok_0@, lossy(bytes@)),
        rows@[i]@[j] matches Cell::Blob(n) ==> contains(
            r->Ok_0@,
            "<"@ + decimal(n as nat) + " bytes>"@,
        ),
        rows@[i]@[j] is Unreadable ==> contains(r->Ok_0@, "?"@),
{
    let names = views(columns@);
    let lines = result_lines(names, rows@, max_rows as nat);
    let cells = Seq::new(rows@[i]@.len(), |j: int| cell_text(rows@[i]@[j]));
    assert(lines[0] == joined(names, " | "@));
    assert(lines[i + 1] == row_text(rows@[i]@));
    lemma_joined_holds(names, " | "@, k);
    lemma_joined_holds(lines, "\n"@, 0);
    lemma_through(r->Ok_0@, lines[0], columns@[k]@);
    lemma_joined_holds(cells, " | "@, j);
    lemma_joined_holds(lines, "\n"@, i + 1);
    lemma_through(r->Ok_0@, lines[i + 1], cells[j]);
}

/// What a part of a text holds, the text holds.
proof fn lemma_through(s: Seq<char>, part: Seq<char>, inner: Seq<char>)
    requires
        contains(s, part),
        contains(part, inner),
    ensures
        contains(s, inner),
{
    let i = choose|i: int| #[trigger] occurs_at(s, part, i);
    let n = i + part.len();
    lemma_contains_within(s.take(i), part, s.skip(n), inner);
    assert(s =~= s.take(i) + part + s.skip(n));
}

/// One row more is one line more, below those before it: its values in their order, with bars
/// between them.
pub proof fn law_rows_are_shown_in_order(
    sql: &str,
    readonly: bool,
    columns: &[String],
    rows: &[Vec<Cell>],
    more: &[Vec<Cell>],
    max_rows: usize,
    a: Result<String, DbError>,
    b: Result<String, DbError>,
    line: Seq<char>,
)
    requires
        call_ensures(query, (sql, readonly, columns, rows, max_rows), a),
        call_ensures(query, (sql, readonly, columns, more, max_rows), b),
        a is Ok,
        0 < rows@.len() < max_rows,
        more@.len() == rows@.len() + 1,
        more@.drop_last() == rows@,
        line == row_text(more@.last()@),
    ensures
        b is Ok,
        b->Ok_0@ == a->Ok_0@ + "\n"@ + line,
        more@.last()@.len() == 1 ==> line == cell_text(more@.last()@[0]),
        more@.last()@.len() > 1 ==> line == row_text(more@.last()@.drop_last()) + " | "@
            + cell_text(more@.last()@.last()),
{
    let names = views(columns@);
    let one = result_lines(names, rows@, max_rows as nat);
    let two = result_lines(names, more@, max_rows as nat);
    assert forall|i: int| 0 <= i < rows@.len() implies rows@[i] == more@[i] by {
        assert(more@.drop_last()[i] == more@[i]);
    }
    assert(two =~= one + seq![line]);
    crate::text::law_joining_goes_part_by_part(one, seq![line], "\n"@, line);
    let row = more@.last()@;
    let cells = Seq::new(row.len(), |j: int| cell_text(row[j]));
    if row.len() == 1 {
        assert(cells =~= seq![cell_text(row[0])]);
        crate::text::law_joining_goes_part_by_part(cells, cells, " | "@, cell_text(row[0]));
    }
    if row.len() > 1 {
        let fewer = Seq::new(row.drop_last().len(), |j: int| cell_text(row.drop_last()[j]));
        assert(cells =~= fewer + seq![cell_text(row.last())]);
        crate::text::law_joining_goes_part_by_part(
            fewer,
            seq![cell_text(row.last())],
            " | "@,
            cell_text(row.last()),
        );
    }
}

/// Where there are more rows than are shown, the answer is that of the rows that are, and says at
/// how many it stopped.
pub proof fn law_a_long_result_says_where_it_stopped(
    sql: &str,
    readonly: bool,
    columns: &[String],
    rows: &[Vec<Cell>],
    more: &[Vec<Cell>],
    max_rows: usize,
    a: Result<String, DbError>,
    b: Result<String, DbError>,
)
    requires
        call_ensures(query, (sql, readonly, columns, rows, max_rows), a),
        call_ensures(query, (sql, readonly, columns, more, max_rows), b),
        a is Ok,
        0 < rows@.len() == max_rows < more@.len(),
        more@.take(rows@.len() as int) == rows@,
    ensures
        b is Ok,
        b->Ok_0@ == a->Ok_0@ + "\n"@ + ("\u{2026} stopped at "@ + decimal(max_rows as nat)
            + " rows"@),
{
    let names = views(columns@);
    let one = result_lines(names, rows@, max_rows as nat);
    let two = result_lines(names, more@, max_rows as nat);
    let note = "\u{2026} stopped at "@ + decimal(max_rows as nat) + " rows"@;
    assert forall|i: int| 0 <= i < rows@.len() implies rows@[i] == more@[i] by {
        assert(more@.take(rows@.len() as int)[i] == more@[i]);
    }
    assert(two =~= one + seq![note]);
    crate::text::law_joining_goes_part_by_part(one, seq![note], "\n"@, note);
}

/// A room without a database is named in the message.
pub proof fn law_a_room_without_a_database_is_told(e: &DbError, r: String)
    requires
        call_ensures(DbError::message, (e,), r),
    ensures
        *e matches DbError::NoDatabase(room_id) ==> ends(r@, room_id@),
{
    if let DbError::NoDatabase(room_id) = e {
        lemma_added("no database for room "@, room_id@);
    }
}

/// Every room that has a database is listed, once, and nothing else is: as many as are counted, each
/// where it is found by its position.
pub proof fn law_the_rooms_are_listed_once<C>(
    dbs: &RoomDbs<C>,
    all: Vec<String>,
    count: usize,
    i: usize,
    at: (&str, &C),
    room_id: &str,
    found: Result<&C, DbError>,
)
    requires
        call_ensures(RoomDbs::<C>::all, (dbs,), all),
        call_ensures(RoomDbs::<C>::len, (dbs,), count),
        call_ensures(RoomDbs::<C>::at, (dbs, i), at),
        call_ensures(RoomDbs::<C>::get, (dbs, room_id), found),
        i < count,
    ensures
        all@.len() == count,
        views(all@).no_duplicates(),
        all@[i as int]@ == at.0@,
        views(all@).contains(room_id@) <==> found is Ok,
        room_id@ == at.0@ ==> (found matches Ok(c) && *c == *at.1),
{
    let rooms = dbs.entries();
    let names = views(all@);
    assert(names.len() == all@.len());
    assert(names[i as int] == all@[i as int]@);
    if names.contains(room_id@) {
        let k = choose|k: int| 0 <= k < names.len() && names[k] == room_id@;
        lemma_handle(rooms, room_id@, k);
    } else {
        assert forall|k: int| 0 <= k < rooms.len() implies (#[trigger] rooms[k]).0 != room_id@ by {
            assert(names[k] == rooms[k].0);
        }
        lemma_no_handle(rooms, room_id@);
    }
    if room_id@ == at.0@ {
        lemma_handle(rooms, room_id@, i as int);
    }
}

/// One file of an earlier layout is enough for there to be something to move, whichever it is.
pub proof fn law_any_earlier_file_is_moved(
    legacy: bool,
    memory: bool,
    messages: bool,
    cron: bool,
    r: bool,
)
    requires
        call_ensures(needs_migration, (legacy, memory, messages, cron), r),
    ensures
        legacy ==> r,
        memory ==> r,
        messages ==> r,
        cron ==> r,
        r ==> legacy || memory || messages || cron,
{
}

/// Each of the three files is taken into the table that it held.
pub proof fn law_every_earlier_file_has_its_table(r: Vec<Source>)
    requires
        call_ensures(sources, (), r),
    ensures
        r@.len() == 3,
        r@[0].file@ == "memory.db"@ && r@[0].table@ == "memories"@,
        r@[1].file@ == "messages.db"@ && r@[1].table@ == "messages"@,
        r@[2].file@ == "cron.db"@ && r@[2].table@ == "cron_jobs"@,
{
}

} // verus!
