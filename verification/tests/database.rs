use merlin::cron::{self, Job};
use merlin::db::{self, Cell, Param, RoomDbs, Statement};
use merlin::embed::{self, Embeddable, Memories, Messages};
use merlin::memory::{self, Record};
use merlin::messages::{self, Archived};
use merlin::search::{Lookup, Search};
use rusqlite::types::{Value, ValueRef};
use rusqlite::{Connection, OptionalExtension};

const NOW: &str = "2026-01-01T00:00:00Z";

fn values(statement: &Statement) -> Vec<Value> {
    statement
        .params
        .iter()
        .map(|p| match p {
            Param::Text(s) => Value::Text(s.clone()),
            Param::Int(n) => Value::Integer(*n),
            Param::Null => Value::Null,
        })
        .collect()
}

fn execute(conn: &Connection, statement: &Statement) -> usize {
    conn.execute(&statement.sql, rusqlite::params_from_iter(values(statement)))
        .unwrap()
}

fn rows<T>(
    conn: &Connection,
    statement: &Statement,
    read: impl Fn(&rusqlite::Row<'_>) -> T,
) -> Vec<T> {
    let mut prepared = conn.prepare(&statement.sql).unwrap();
    let out = prepared
        .query_map(rusqlite::params_from_iter(values(statement)), |r| Ok(read(r)))
        .unwrap()
        .map(|r| r.unwrap())
        .collect();
    out
}

fn number(conn: &Connection, statement: &Statement) -> i64 {
    rows(conn, statement, |r| r.get(0).unwrap())[0]
}

/// A database that several connections of one test share for as long as one of them is open.
fn shared(name: &str) -> Connection {
    let conn = Connection::open(uri(name)).unwrap();
    conn.execute_batch(db::SCHEMA).unwrap();
    conn
}

fn uri(name: &str) -> String {
    format!("file:{name}?mode=memory&cache=shared")
}

fn database() -> Connection {
    let conn = Connection::open_in_memory().unwrap();
    conn.execute_batch(db::SCHEMA).unwrap();
    conn
}

fn rowid(conn: &Connection, key: &str) -> Option<i64> {
    rows(conn, &memory::rowid(key), |r| r.get(0).unwrap()).pop()
}

fn store(conn: &Connection, key: &str, content: &str, category: &str, room_id: Option<&str>) {
    let id = format!("id of {key}: {content}");
    execute(conn, &memory::store(&id, key, content, category, room_id, NOW));
    discard(conn, &memory::after_store(rowid(conn, key)));
}

/// Until something is embedded there is no table to discard a vector from.
fn discard(conn: &Connection, statements: &[Statement]) {
    for s in statements {
        conn.execute(&s.sql, rusqlite::params_from_iter(values(s))).ok();
    }
}

fn forget(conn: &Connection, key: &str) -> bool {
    let statements = memory::forget(key, rowid(conn, key));
    let (deletion, before) = statements.split_last().unwrap();
    discard(conn, before);
    execute(conn, deletion) > 0
}

fn record(conn: &Connection, event: &str, room: &str, sender: &str, body: &str, at: &str) {
    execute(conn, &messages::record(event, room, sender, body, at));
}

fn to_record(r: &rusqlite::Row<'_>, from: usize) -> Record {
    Record {
        key: r.get(from).unwrap(),
        content: r.get(from + 1).unwrap(),
        category: r.get(from + 2).unwrap(),
        created_at: r.get(from + 3).unwrap(),
    }
}

fn to_archived(r: &rusqlite::Row<'_>, from: usize) -> Archived {
    Archived {
        sender: r.get(from).unwrap(),
        body: r.get(from + 1).unwrap(),
        at: r.get(from + 2).unwrap(),
    }
}

fn cosine(a: &[f32], b: &[f32]) -> f32 {
    let (mut dot, mut na, mut nb) = (0.0f32, 0.0f32, 0.0f32);
    for (x, y) in a.iter().zip(b) {
        dot += x * y;
        na += x * x;
        nb += y * y;
    }
    if na == 0.0 || nb == 0.0 {
        return 0.0;
    }
    dot / (na.sqrt() * nb.sqrt())
}

/// A number that is larger exactly where the similarity is.
fn score(similarity: f32) -> u64 {
    let bits = (similarity + 0.0).to_bits();
    if bits >> 31 == 0 {
        (bits | 1 << 31) as u64
    } else {
        (!bits) as u64
    }
}

fn blob(v: &[f32]) -> Vec<u8> {
    v.iter().flat_map(|x| x.to_le_bytes()).collect()
}

fn unblob(b: &[u8]) -> Vec<f32> {
    b.chunks(4)
        .map(|c| f32::from_le_bytes([c[0], c[1], c[2], c[3]]))
        .collect()
}

/// The vectors are kept in an ordinary table here, which the statements fit just as well.
fn ensure_table<E: Embeddable>(conn: &Connection, model: &str, dimensions: i64) {
    conn.execute_batch(embed::META_TABLE).unwrap();
    let current: Option<(String, i64)> = conn
        .query_row(embed::META_SELECT, [E::TABLE], |r| {
            Ok((r.get(0)?, r.get(1)?))
        })
        .optional()
        .unwrap();
    for s in embed::ensure_table::<E>(&current, model, dimensions) {
        if s.sql.starts_with("CREATE VIRTUAL TABLE") {
            assert!(s.sql.contains(&format!("float[{dimensions}] distance_metric=cosine")));
            conn.execute_batch(&format!(
                "CREATE TABLE IF NOT EXISTS {} ({} INTEGER PRIMARY KEY, embedding BLOB)",
                E::TABLE,
                E::KEY
            ))
            .unwrap();
        } else {
            execute(conn, &s);
        }
    }
}

fn pending<E: Embeddable>(conn: &Connection, limit: i64) -> Vec<(i64, String)> {
    let found = rows(conn, &embed::pending::<E>(limit), |r| {
        (r.get(0).unwrap(), r.get(1).unwrap())
    });
    assert!(number(conn, &embed::count_pending::<E>()) as usize >= found.len());
    found
}

fn embed_all<E: Embeddable>(conn: &Connection, pick: impl Fn(&str) -> Vec<f32>) {
    for (id, text) in pending::<E>(conn, 100) {
        conn.execute(
            &embed::save::<E>().sql,
            rusqlite::params_from_iter(vec![Value::Integer(id), Value::Blob(blob(&pick(&text)))]),
        )
        .unwrap();
    }
}

fn vector_of<E: Embeddable>(conn: &Connection, id: i64) -> Option<Vec<f32>> {
    rows(conn, &embed::vector_of::<E>(id), |r| {
        unblob(&r.get::<_, Vec<u8>>(0).unwrap())
    })
    .pop()
}

fn nearest<E: Embeddable>(conn: &Connection, vector: &[f32], limit: usize) -> Vec<i64> {
    assert!(embed::nearest::<E>().sql.contains("MATCH ?1 AND k = ?2"));
    let ids: Vec<i64> = rows(
        conn,
        &Statement::new(&format!("SELECT {} FROM {}", E::KEY, E::TABLE)),
        |r| r.get(0).unwrap(),
    );
    let scored = ids
        .into_iter()
        .map(|id| {
            let v = vector_of::<E>(conn, id).unwrap();
            (Some(score(cosine(vector, &v))), id)
        })
        .collect();
    embed::rank(scored, limit)
}

fn by_meaning<E: Embeddable, T>(
    conn: &Connection,
    candidates: Vec<(i64, T)>,
    vector: &[f32],
    limit: usize,
) -> Vec<T> {
    let scored = candidates
        .into_iter()
        .map(|(id, row)| {
            let s = vector_of::<E>(conn, id).map(|v| score(cosine(vector, &v)));
            (s, row)
        })
        .collect();
    embed::rank(scored, limit)
}

fn follow<T>(mut search: Search, look: impl Fn(&Lookup) -> Vec<T>) -> Vec<T> {
    let mut hits = Vec::new();
    while let Some(lookup) = search.current() {
        hits = look(lookup);
        search.found(hits.len());
    }
    hits
}

fn recall(conn: &Connection, query: &str, vector: Option<&[f32]>, limit: usize) -> Vec<Record> {
    let indexed = |expr: &str, limit: usize| -> Vec<(i64, Record)> {
        rows(conn, &memory::from_index(expr, limit), |r| {
            (r.get(0).unwrap(), to_record(r, 1))
        })
    };
    follow(
        memory::recall(query, vector.is_some(), limit),
        |lookup| match lookup {
            Lookup::Index { expr, limit, .. } => {
                indexed(expr, *limit).into_iter().map(|(_, r)| r).collect()
            }
            Lookup::Nearest { limit } => nearest::<Memories>(conn, vector.unwrap(), *limit)
                .into_iter()
                .flat_map(|id| rows(conn, &memory::by_rowid(id), |r| to_record(r, 0)))
                .collect(),
            Lookup::Ranked {
                expr, cap, limit, ..
            } => by_meaning::<Memories, _>(conn, indexed(expr, *cap), vector.unwrap(), *limit),
            Lookup::Like { pattern, limit } => {
                rows(conn, &memory::like(pattern, *limit), |r| to_record(r, 0))
            }
            Lookup::Similar { .. } => panic!("notes are not matched by likeness"),
        },
    )
}

fn search(conn: &Connection, query: &str, vector: Option<&[f32]>, limit: usize) -> Vec<Archived> {
    let indexed = |index: &str, expr: &str, limit: usize| -> Vec<(i64, Archived)> {
        rows(conn, &messages::from_index(index, expr, limit), |r| {
            (r.get(0).unwrap(), to_archived(r, 1))
        })
    };
    follow(
        messages::search(query, vector.is_some(), limit),
        |lookup| match lookup {
            Lookup::Index { index, expr, limit } => indexed(index, expr, *limit)
                .into_iter()
                .map(|(_, r)| r)
                .collect(),
            Lookup::Nearest { limit } => nearest::<Messages>(conn, vector.unwrap(), *limit)
                .into_iter()
                .flat_map(|id| rows(conn, &messages::by_rowid(id), |r| to_archived(r, 0)))
                .collect(),
            Lookup::Ranked {
                index,
                expr,
                cap,
                limit,
            } => by_meaning::<Messages, _>(
                conn,
                indexed(index, expr, *cap),
                vector.unwrap(),
                *limit,
            ),
            Lookup::Similar {
                index,
                expr,
                over,
                words,
                limit,
            } => messages::rank_alike(
                words,
                indexed(index, expr, *over)
                    .into_iter()
                    .map(|(_, r)| r)
                    .collect(),
                *limit,
            ),
            Lookup::Like { .. } => panic!("messages are not matched by pattern"),
        },
    )
}

fn query(conn: &Connection, sql: &str, max_rows: usize) -> Result<String, String> {
    let mut prepared = conn.prepare(sql).map_err(|e| e.to_string())?;
    let columns: Vec<String> = prepared.column_names().map(|c| c.to_string()).collect();
    let mut found: Vec<Vec<Cell>> = Vec::new();
    let readonly = prepared.readonly();
    if db::may_ask(sql, readonly) {
        let mut rows = prepared.query([]).map_err(|e| e.to_string())?;
        while let Some(row) = rows.next().map_err(|e| e.to_string())? {
            found.push(
                (0..columns.len())
                    .map(|i| match row.get_ref(i) {
                        Ok(ValueRef::Null) => Cell::Null,
                        Ok(ValueRef::Integer(v)) => Cell::Integer(v),
                        Ok(ValueRef::Real(v)) => Cell::Real(v.to_string()),
                        Ok(ValueRef::Text(v)) => Cell::Text(v.to_vec()),
                        Ok(ValueRef::Blob(v)) => Cell::Blob(v.len() as u64),
                        Err(_) => Cell::Unreadable,
                    })
                    .collect(),
            );
            if found.len() > max_rows {
                break;
            }
        }
    }
    db::query(sql, readonly, &columns, &found, max_rows).map_err(|e| e.message())
}

fn job(name: &str, schedule: &str) -> Job {
    Job {
        name: name.into(),
        schedule: schedule.into(),
        timezone: "Australia/Sydney".into(),
        prompt: "post the digest".into(),
        room_id: "!r:example.org".into(),
        enabled: true,
    }
}

fn jobs(conn: &Connection) -> Vec<Job> {
    rows(conn, &cron::list(), |r| Job {
        name: r.get(0).unwrap(),
        schedule: r.get(1).unwrap(),
        timezone: r.get(2).unwrap(),
        prompt: r.get(3).unwrap(),
        room_id: r.get(4).unwrap(),
        enabled: r.get::<_, i32>(5).unwrap() != 0,
    })
}

#[test]
fn legacy_data_is_split_into_physical_room_databases() {
    let legacy = shared("legacy");
    store(
        &legacy,
        "legacy",
        "belongs to the original room",
        "core",
        None,
    );
    store(&legacy, "private-b", "only room b", "core", Some("!b:x"));
    record(&legacy, "$a", "!a:x", "@a:x", "alpha", "2026-01-01T00:00:00Z");
    record(&legacy, "$b", "!b:x", "@b:x", "beta", "2026-01-01T00:00:00Z");

    let room_ids: Vec<String> = vec!["!a:x".into(), "!b:x".into()];
    let files = RoomDbs::<Connection>::open(&room_ids).unwrap();
    assert_eq!(files[0], format!("{}.db", db::room_key("!a:x")));
    let mut rooms: RoomDbs<Connection> = RoomDbs::new();
    for (index, room_id) in room_ids.iter().enumerate() {
        let conn = shared(&format!("room{index}"));
        for s in db::migrate_legacy(&uri("legacy"), room_id, index as i64) {
            execute(&conn, &s);
        }
        rooms.insert(room_id, conn);
    }
    let a = rooms.get("!a:x").unwrap();
    let b = rooms.get("!b:x").unwrap();

    assert_eq!(number(a, &messages::count()), 1);
    assert_eq!(number(b, &messages::count()), 1);
    assert_eq!(number(a, &memory::count()), 1);
    assert_eq!(number(b, &memory::count()), 1);
    assert_eq!(
        db::unique_migrated_name(&[], db::LEGACY_FILE),
        "merlin.db.migrated"
    );
    assert_ne!(
        db::room_key("!a:x"),
        db::room_key("!b:x"),
        "room database filenames must not collide"
    );
    assert_eq!(rooms.all(), vec!["!a:x", "!b:x"]);
    assert_eq!(
        rooms.get("!c:x").err().unwrap().message(),
        "no database for room !c:x"
    );
    assert_eq!(
        RoomDbs::<Connection>::open(&[]).err().unwrap().message(),
        "cannot open databases without rooms"
    );
}

#[test]
fn a_room_that_is_opened_again_replaces_its_database() {
    let mut rooms: RoomDbs<u8> = RoomDbs::new();
    rooms.insert("!a", 1);
    rooms.insert("!b", 2);
    rooms.insert("!a", 3);
    assert_eq!(rooms.len(), 2);
    assert_eq!(rooms.all(), vec!["!a".to_string(), "!b".to_string()]);
    assert_eq!(*rooms.get("!a").unwrap(), 3);
    let (name, value) = rooms.at(1);
    assert_eq!((name, *value), ("!b", 2));
}

#[test]
fn a_room_is_keyed_by_its_digest() {
    assert_eq!(
        db::room_key(""),
        "e3b0c44298fc1c149afbf4c8996fb92427ae41e4649b934ca495991b7852b855"
    );
    assert_eq!(db::hex_of(&[0, 15, 255]), "000fff");
}

#[test]
fn a_migrated_file_keeps_its_history() {
    assert_eq!(
        db::unique_migrated_name(&["merlin.db.migrated".into()], "merlin.db"),
        "merlin.db.migrated.1"
    );
    assert_eq!(
        db::unique_migrated_name(
            &["merlin.db.migrated.1".into(), "merlin.db.migrated".into()],
            "merlin.db"
        ),
        "merlin.db.migrated.2"
    );
    assert_eq!(db::companions("merlin.db"), vec!["merlin.db-wal", "merlin.db-shm"]);
    assert!(!db::needs_migration(false, false, false, false));
    assert!(db::needs_migration(false, false, true, false));
    assert!(db::needs_migration(true, false, false, false));
}

#[test]
fn memory_survives_reopening_and_recalls_by_keyword() {
    let conn = shared("memory");
    store(
        &conn,
        "kettle",
        "the kettle in the kitchen is broken",
        "core",
        None,
    );
    store(
        &conn,
        "parking",
        "visitor parking is free after six",
        "core",
        None,
    );
    store(
        &conn,
        "kettle",
        "the kettle is broken. a new one is on order",
        "core",
        None,
    );

    let again = shared("memory");
    drop(conn);
    assert_eq!(
        number(&again, &memory::count()),
        2,
        "upsert must not duplicate a key"
    );

    let hits = recall(&again, "kettle broken", None, 5);
    assert_eq!(hits.len(), 1);
    assert!(
        hits[0].content.contains("on order"),
        "the revision must win"
    );

    recall(&again, "!!!", None, 5);
}

#[test]
fn a_recall_finds_no_note_that_lacks_a_quoted_term() {
    let conn = database();
    ensure_table::<Memories>(&conn, MODEL, 3);
    store(&conn, "cup", "world cup final", "core", None);
    let near = vector(1.0, 0.0, 0.0);
    for vector in [None, Some(near.as_slice())] {
        assert!(recall(&conn, "world cup \"2025\"", vector, 5).is_empty());
        assert!(recall(&conn, "\"2025\"", vector, 5).is_empty());
        assert_eq!(recall(&conn, "2025 \"final\"", vector, 5).len(), 1);
    }
    embed_all::<Memories>(&conn, |_| near.clone());
    assert!(recall(&conn, "world cup \"2025\"", Some(&near), 5).is_empty());
    assert_eq!(recall(&conn, "game \"final\"", Some(&near), 5).len(), 1);
    assert_eq!(recall(&conn, "world cup 2025", None, 5).len(), 1);
}

#[test]
fn a_revised_note_stays_one_note() {
    let conn = database();
    ensure_table::<Memories>(&conn, MODEL, 3);
    execute(&conn, &memory::store("1", "kettle", "broken", "core", None, "2025-01-01"));
    store(&conn, "parking", "free after six", "core", None);
    embed_all::<Memories>(&conn, |_| vector(1.0, 0.0, 0.0));
    assert!(pending::<Memories>(&conn, 10).is_empty());

    store(&conn, "kettle", "on order", "daily", None);
    assert_eq!(number(&conn, &memory::count()), 2);
    let note = &recall(&conn, "kettle", None, 5)[0];
    assert_eq!(note.content, "on order");
    assert_eq!(note.category, "daily");
    assert_eq!(note.created_at, "2025-01-01");
    assert_eq!(pending::<Memories>(&conn, 10).len(), 1);

    assert!(forget(&conn, "kettle"));
    assert!(!forget(&conn, "kettle"));
    assert_eq!(number(&conn, &memory::count()), 1);
    assert!(pending::<Memories>(&conn, 10).is_empty());
}

#[test]
fn a_note_is_found_by_a_piece_of_its_text_at_last() {
    let conn = database();
    store(&conn, "k", "100% !!! sure", "core", None);
    assert_eq!(recall(&conn, "!!!", None, 5).len(), 1);
    assert!(recall(&conn, "???", None, 5).is_empty());
    assert!(forget(&conn, "k"));
    assert!(!forget(&conn, "k"));
}

fn seeded_archive() -> Connection {
    let conn = database();
    for (i, (sender, body)) in [
        ("@sam:x", "the shoelace snapped on my boot"),
        ("@lee:x", "world cup final was in 2025"),
        ("@kim:x", "the 2018 final went to penalties"),
        ("@sam:x", "a gymnast stuck the landing"),
    ]
    .iter()
    .enumerate()
    {
        record(
            &conn,
            &format!("$e{i}"),
            "!r:x",
            sender,
            body,
            &format!("2026-01-0{}T00:00:00Z", i + 1),
        );
    }
    conn
}

#[test]
fn bare_words_tolerate_misspelling() {
    let conn = seeded_archive();
    let hits = search(&conn, "shoelase", None, 5);
    assert_eq!(hits.len(), 1);
    assert!(hits[0].body.contains("shoelace"));
}

#[test]
fn quoted_terms_are_required_and_combine_with_fuzzy_ones() {
    let conn = seeded_archive();

    let hits = search(&conn, "wrold cup \"2025\"", None, 5);
    assert_eq!(hits.len(), 1);
    assert!(hits[0].body.contains("2025"));

    let hits = search(&conn, "finl \"2018\"", None, 5);
    assert_eq!(hits.len(), 1);
    assert!(hits[0].body.contains("2018"));

    assert_eq!(search(&conn, "\"gymnast\"", None, 5).len(), 1);
    assert!(search(&conn, "\"gymnasts\"", None, 5).is_empty());
}

#[test]
fn a_required_term_without_a_likeness_is_still_found() {
    let conn = seeded_archive();
    let hits = search(&conn, "zzzzzz \"2018\"", None, 5);
    assert_eq!(hits.len(), 1);
}

#[test]
fn search_rejects_nothing_and_finds_nothing_for_unrelated_queries() {
    let conn = seeded_archive();
    search(&conn, "s&p", None, 5);
    search(&conn, "???", None, 5);
    assert!(search(&conn, "", None, 5).is_empty());
    assert!(search(&conn, "elephant", None, 5).is_empty());
}

#[test]
fn recent_returns_the_newest_messages_oldest_first() {
    let conn = seeded_archive();
    let found = rows(&conn, &messages::recent("!r:x", 2), |r| to_archived(r, 0));
    assert_eq!(found.len(), 2);
    assert!(found[0].body.contains("2018"));
    assert!(found[1].body.contains("gymnast"));
    assert!(rows(&conn, &messages::recent("!other:x", 5), |r| to_archived(r, 0)).is_empty());
}

#[test]
fn an_event_is_archived_once_however_often_sync_replays_it() {
    let conn = database();
    for _ in 0..3 {
        record(
            &conn,
            "$same",
            "!r:x",
            "@sam:x",
            "hello",
            "2026-01-01T00:00:00Z",
        );
    }
    assert_eq!(number(&conn, &messages::count()), 1);
}

#[test]
fn the_three_old_databases_are_folded_into_one() {
    let old_memory = shared("memory.db");
    store(&old_memory, "kept", "this must survive", "core", None);
    let old_messages = shared("messages.db");
    record(
        &old_messages,
        "$m1",
        "!r:x",
        "@sam:x",
        "so must this",
        "2026-01-01T00:00:00Z",
    );
    let old_cron = shared("cron.db");
    execute(&old_cron, &cron::upsert(&job("nightly", "0 7 * * *"), NOW));

    let conn = shared("merlin.db");
    let mut moved = 0;
    for source in db::sources() {
        let statements = db::migrate_from_split_files(&source, &uri(source.file));
        for (i, s) in statements.iter().enumerate() {
            let changed = execute(&conn, s);
            if i == 1 {
                moved += changed;
            }
        }
    }
    assert_eq!(moved, 3, "one row from each file");

    assert_eq!(number(&conn, &memory::count()), 1);
    assert_eq!(number(&conn, &messages::count()), 1);
    assert_eq!(jobs(&conn).len(), 1);

    assert_eq!(db::migrated_name("memory.db", 0), "memory.db.migrated");

    assert_eq!(recall(&conn, "survive", None, 5).len(), 1);
    assert_eq!(search(&conn, "\"must\"", None, 5).len(), 1);
}

#[test]
fn sql_queries_can_read_everything_and_write_nothing() {
    let conn = database();
    conn.set_limit(rusqlite::limits::Limit::SQLITE_LIMIT_ATTACHED, 0)
        .unwrap();
    store(&conn, "a", "first note", "core", None);
    store(&conn, "b", "second note", "daily", None);
    record(&conn, "$1", "!r:x", "@sam:x", "hello", "2026-01-01T00:00:00Z");

    let out = query(
        &conn,
        "SELECT category, count(*) FROM memories GROUP BY category",
        50,
    )
    .unwrap();
    assert!(out.contains("core | 1"), "got: {out}");
    assert!(out.contains("daily | 1"), "got: {out}");

    let out = query(
        &conn,
        "SELECT (SELECT count(*) FROM memories) AS m, (SELECT count(*) FROM messages) AS n",
        50,
    )
    .unwrap();
    assert!(out.contains("2 | 1"), "got: {out}");

    for write in [
        "DELETE FROM memories",
        "UPDATE memories SET content = 'x'",
        "INSERT INTO memories (id, key, content, category, created_at, updated_at) VALUES ('i','k','c','core','t','t')",
        "DROP TABLE memories",
    ] {
        assert!(
            query(&conn, write, 50).is_err(),
            "{write} must be refused"
        );
    }
    assert_eq!(
        number(&conn, &memory::count()),
        2,
        "nothing may have been written"
    );

    assert!(query(&conn, "SELECT * FROM memories WHERE 0", 50)
        .unwrap()
        .contains("No rows"));
    assert!(query(&conn, "SELECT nonsense syntax(", 50).is_err());

    assert!(
        query(&conn, "ATTACH DATABASE '/tmp/other.db' AS other", 50).is_err(),
        "attaching another database must be refused"
    );
}

#[test]
fn only_select_with_and_explain_may_be_asked() {
    let conn = database();
    for asked in [
        "select 1 AS n",
        "  -- a comment\n\t/* another; */ SeLeCt 1 AS n",
        "WITH x AS (SELECT 1 AS n) SELECT n FROM x",
        "EXPLAIN SELECT 1",
        "explain query plan select 1",
    ] {
        assert!(query(&conn, asked, 50).is_ok(), "{asked} must be answered");
    }
    for refused in [
        "PRAGMA table_info(memories)",
        "PRAGMA foreign_keys",
        "VALUES (1)",
        "BEGIN",
        "WITH x AS (SELECT 1) DELETE FROM memories",
        "-- SELECT\nPRAGMA user_version",
    ] {
        assert_eq!(
            query(&conn, refused, 50).err().unwrap(),
            "that statement would modify the database; only SELECT, WITH and EXPLAIN are allowed here",
            "{refused}"
        );
    }
    assert!(db::may_ask(";;select(1)", true));
    assert!(!db::may_ask("select 1", false));
    for sql in ["", ";", "--select", "/*select", "/*/select 1", "selected", "select_ 1", "withé", "explain$"] {
        assert!(!db::may_ask(sql, true), "{sql}");
    }
}

#[test]
fn a_table_is_shown_cell_by_cell() {
    let columns: Vec<String> = vec!["a".into(), "b".into()];
    let table = vec![
        vec![Cell::Null, Cell::Integer(-5)],
        vec![Cell::Real("1.5".into()), Cell::Text(b"x\xff".to_vec())],
        vec![Cell::Blob(3), Cell::Unreadable],
    ];
    assert_eq!(
        db::query("SELECT", true, &columns, &table, 3).unwrap(),
        "a | b\nNULL | -5\n1.5 | x\u{fffd}\n<3 bytes> | ?"
    );
    assert_eq!(
        db::query("SELECT", true, &columns, &table, 1).unwrap(),
        "a | b\nNULL | -5\n\u{2026} stopped at 1 rows"
    );
    assert_eq!(db::query("SELECT", true, &columns, &[], 1).unwrap(), "No rows.");
    assert_eq!(
        db::query("SELECT", false, &columns, &table, 1).err().unwrap().message(),
        "that statement would modify the database; only SELECT, WITH and EXPLAIN are allowed here"
    );
}

fn vector(x: f32, y: f32, z: f32) -> Vec<f32> {
    vec![x, y, z]
}

const MODEL: &str = "test/embedding-model";

#[test]
fn semantic_recall_ranks_memories_by_direction_not_magnitude() {
    let conn = database();
    ensure_table::<Memories>(&conn, MODEL, 3);

    store(&conn, "boiler", "the heating packed up", "core", None);
    store(
        &conn,
        "parking",
        "visitor parking is free after six",
        "core",
        None,
    );
    assert_eq!(
        pending::<Memories>(&conn, 10).len(),
        2,
        "nothing is embedded until the loop runs"
    );

    embed_all::<Memories>(&conn, |text| {
        if text.contains("heating") {
            vector(0.31, 0.0, 0.0)
        } else {
            vector(0.0, 1.0, 0.0)
        }
    });
    assert!(pending::<Memories>(&conn, 10).is_empty());

    let hits = recall(&conn, "heating trouble", Some(&vector(9.7, 0.0, 0.0)), 2);
    assert_eq!(hits[0].key, "boiler");
    assert_eq!(hits[1].key, "parking");
}

#[test]
fn revising_a_memory_re_embeds_it() {
    let conn = database();
    ensure_table::<Memories>(&conn, MODEL, 3);

    store(&conn, "kettle", "the kettle is broken", "core", None);
    embed_all::<Memories>(&conn, |_| vector(1.0, 0.0, 0.0));
    assert!(pending::<Memories>(&conn, 10).is_empty());

    store(
        &conn,
        "kettle",
        "the kettle was replaced on tuesday",
        "core",
        None,
    );
    assert_eq!(
        pending::<Memories>(&conn, 10).len(),
        1,
        "revised content must be queued for re-embedding"
    );
}

#[test]
fn forgetting_a_memory_takes_its_vector_with_it() {
    let conn = database();
    ensure_table::<Memories>(&conn, MODEL, 3);

    store(&conn, "doomed", "this will be deleted", "core", None);
    embed_all::<Memories>(&conn, |_| vector(1.0, 0.0, 0.0));
    forget(&conn, "doomed");

    let hits = recall(&conn, "deleted thing", Some(&vector(1.0, 0.0, 0.0)), 5);
    assert!(
        hits.iter().all(|h| h.key != "doomed"),
        "a deleted memory must not still be reachable by meaning, found {hits:?}"
    );

    store(&conn, "fresh", "something else entirely", "core", None);
    assert_eq!(
        pending::<Memories>(&conn, 10).len(),
        1,
        "the reused rowid must not inherit a vector"
    );
}

#[test]
fn changing_the_embedding_model_discards_incompatible_vectors() {
    let conn = database();
    ensure_table::<Memories>(&conn, MODEL, 3);
    store(&conn, "a", "some note", "core", None);
    embed_all::<Memories>(&conn, |_| vector(1.0, 0.0, 0.0));
    assert!(pending::<Memories>(&conn, 10).is_empty());

    ensure_table::<Memories>(&conn, "test/other-model", 4);
    assert_eq!(
        pending::<Memories>(&conn, 10).len(),
        1,
        "vectors from another model must be rebuilt, not reused"
    );
    assert_eq!(number(&conn, &memory::count()), 1);
}

#[test]
fn the_same_embedding_model_keeps_its_vectors() {
    let conn = database();
    ensure_table::<Memories>(&conn, MODEL, 3);
    store(&conn, "a", "some note", "core", None);
    embed_all::<Memories>(&conn, |_| vector(1.0, 0.0, 0.0));
    ensure_table::<Memories>(&conn, MODEL, 3);
    assert!(pending::<Memories>(&conn, 10).is_empty());
}

#[test]
fn quoted_terms_filter_and_the_rest_ranks_by_meaning() {
    let conn = database();
    ensure_table::<Messages>(&conn, MODEL, 3);

    for (i, (sender, body)) in [
        ("@sam:x", "the world cup final was in 2025"),
        ("@lee:x", "quarterly revenue for 2025 was strong"),
        ("@kim:x", "the world cup was thrilling"),
    ]
    .iter()
    .enumerate()
    {
        record(
            &conn,
            &format!("${i}"),
            "!r:x",
            sender,
            body,
            &format!("2026-01-0{}T00:00:00Z", i + 1),
        );
    }
    embed_all::<Messages>(&conn, |text| {
        if text.contains("world cup") {
            vector(1.0, 0.0, 0.0)
        } else {
            vector(0.0, 1.0, 0.0)
        }
    });

    let bodies: Vec<String> = search(&conn, "world cup \"2025\"", Some(&vector(1.0, 0.0, 0.0)), 5)
        .into_iter()
        .map(|h| h.body)
        .collect();

    assert!(
        !bodies.iter().any(|b| b == "the world cup was thrilling"),
        "a message without the required term must be excluded however well it matches in meaning, got {bodies:?}"
    );
    assert_eq!(
        bodies,
        vec![
            "the world cup final was in 2025".to_string(),
            "quarterly revenue for 2025 was strong".to_string()
        ],
        "both keep 2025; the world cup one ranks first on meaning"
    );
}

#[test]
fn an_all_quoted_query_stays_exact() {
    let conn = database();
    ensure_table::<Messages>(&conn, MODEL, 3);
    record(
        &conn,
        "$a",
        "!r:x",
        "@sam:x",
        "the invoice went out friday",
        "2026-01-01T00:00:00Z",
    );
    record(
        &conn,
        "$b",
        "!r:x",
        "@lee:x",
        "lunch was excellent",
        "2026-01-02T00:00:00Z",
    );
    embed_all::<Messages>(&conn, |_| vector(1.0, 0.0, 0.0));

    let hits = search(&conn, "\"invoice\"", None, 5);
    assert_eq!(hits.len(), 1);
    assert_eq!(hits[0].sender, "@sam:x");
}

#[test]
fn search_falls_back_to_matching_text_when_nothing_is_embedded_yet() {
    let conn = database();
    ensure_table::<Messages>(&conn, MODEL, 3);
    record(
        &conn,
        "$a",
        "!r:x",
        "@sam:x",
        "the shoelace snapped",
        "2026-01-01T00:00:00Z",
    );

    let hits = search(&conn, "shoelase", Some(&vector(1.0, 0.0, 0.0)), 5);
    assert_eq!(hits.len(), 1, "the fallback must still answer");
    assert_eq!(hits[0].body, "the shoelace snapped");
}

#[test]
fn jobs_persist_edit_in_place_and_delete() {
    let conn = shared("cron");
    execute(&conn, &cron::upsert(&job("hn", "0 7 * * *"), "t1"));
    execute(&conn, &cron::upsert(&job("hn", "0 8 * * *"), "t2"));
    execute(&conn, &cron::record_run("hn", "t3", "ok"));

    let again = shared("cron");
    drop(conn);
    let found = jobs(&again);
    assert_eq!(found.len(), 1, "same name edits rather than duplicates");
    assert_eq!(found[0].schedule, "0 8 * * *");
    assert_eq!(found, vec![job("hn", "0 8 * * *")]);

    let (created, run, status): (String, String, String) = again
        .query_row(
            "SELECT created_at, last_run, last_status FROM cron_jobs",
            [],
            |r| Ok((r.get(0)?, r.get(1)?, r.get(2)?)),
        )
        .unwrap();
    assert_eq!(
        (created.as_str(), run.as_str(), status.as_str()),
        ("t1", "t3", "ok")
    );

    assert!(execute(&again, &cron::delete("hn")) > 0);
    assert!(execute(&again, &cron::delete("hn")) == 0);
}
