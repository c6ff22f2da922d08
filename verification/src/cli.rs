//! The command line, and what the environment says about where things are.
use vstd::prelude::*;
use vstd::string::StringExecFns;

use crate::config::{var, Environment};
use crate::messages::Archived;
use crate::room::{newest, Buffers, Turn};
use crate::text::{
    begins, contains, lemma_added, lemma_parts, owned, parse_u64, parsed_u64, same, split_words,
    trim, trimmed, views, words, Class,
};

verus! {

/// Where the configuration lies, where nothing else is said.
pub const DEFAULT_CONFIG: &'static str = "/var/lib/merlin/config.toml";

/// Where the workspaces lie, where nothing else is said.
pub const DEFAULT_WORKSPACE: &'static str = "/var/lib/merlin-workspace";

/// How many pages are paged back, where no number is given.
pub const DEFAULT_PAGES: usize = 50;

/// What the command line asks for.
#[derive(Debug)]
pub struct Args {
    pub config: String,
    pub import_keys: Option<String>,
    pub backfill: Option<usize>,
}

/// What the command line asks for.
#[verifier::ext_equal]
pub struct ArgsView {
    pub config: Seq<char>,
    pub import_keys: Option<Seq<char>>,
    pub backfill: Option<usize>,
}

impl View for Args {
    type V = ArgsView;

    open spec fn view(&self) -> ArgsView {
        ArgsView {
            config: self.config@,
            import_keys: crate::llm::optional_string(self.import_keys),
            backfill: self.backfill,
        }
    }
}

/// What is wrong with the command line.
#[derive(Debug)]
pub enum ArgError {
    NeedsValue(String),
    NeedsPages,
    Unknown(String),
}

impl ArgError {
    /// How the error reads.
    pub open spec fn words(self) -> Seq<char> {
        match self {
            ArgError::NeedsValue(flag) => flag@ + " needs a value"@,
            ArgError::NeedsPages => "--backfill needs a page count"@,
            ArgError::Unknown(arg) => "unknown argument '"@ + arg@ + "'"@,
        }
    }

    /// How the error reads.
    pub fn message(&self) -> (r: String)
        ensures
            r@ == self.words(),
    {
        match self {
            ArgError::NeedsValue(flag) => {
                let mut out = flag.clone();
                out.append(" needs a value");
                out
            },
            ArgError::NeedsPages => owned("--backfill needs a page count"),
            ArgError::Unknown(arg) => {
                let mut out = owned("unknown argument '");
                out.append(arg.as_str());
                out.append("'");
                out
            },
        }
    }
}

/// What can be wrong with the command line.
#[verifier::ext_equal]
pub enum Fault {
    NeedsValue(Seq<char>),
    NeedsPages,
    Unknown(Seq<char>),
}

impl View for ArgError {
    type V = Fault;

    open spec fn view(&self) -> Fault {
        match self {
            ArgError::NeedsValue(flag) => Fault::NeedsValue(flag@),
            ArgError::NeedsPages => Fault::NeedsPages,
            ArgError::Unknown(arg) => Fault::Unknown(arg@),
        }
    }
}

/// A number of pages.
pub open spec fn page_count(s: Seq<char>) -> Option<usize> {
    match parsed_u64(s) {
        Some(n) => if n <= usize::MAX {
            Some(n as usize)
        } else {
            None
        },
        None => None,
    }
}

/// What the rest of the command line asks for, on top of what has been asked for.
pub open spec fn asked(args: Seq<Seq<char>>, so_far: ArgsView) -> Result<ArgsView, Fault>
    decreases args.len(),
{
    if args.len() == 0 {
        Ok(so_far)
    } else if args[0] == "--config"@ {
        if args.len() == 1 {
            Err(Fault::NeedsValue("--config"@))
        } else {
            asked(args.skip(2), ArgsView { config: args[1], ..so_far })
        }
    } else if args[0] == "--import-keys"@ {
        if args.len() == 1 {
            Err(Fault::NeedsValue("--import-keys"@))
        } else {
            asked(args.skip(2), ArgsView { import_keys: Some(args[1]), ..so_far })
        }
    } else if args[0] == "--backfill"@ {
        if args.len() == 1 {
            Ok(ArgsView { backfill: Some(DEFAULT_PAGES), ..so_far })
        } else {
            match page_count(args[1]) {
                Some(n) => asked(args.skip(2), ArgsView { backfill: Some(n), ..so_far }),
                None => Err(Fault::NeedsPages),
            }
        }
    } else {
        Err(Fault::Unknown(args[0]))
    }
}

/// What is asked for where nothing is said.
pub open spec fn nothing_asked() -> ArgsView {
    ArgsView { config: DEFAULT_CONFIG@, import_keys: None, backfill: None }
}

impl Args {
    /// Reads the command line, without the name of the program.
    pub fn parse(raw: &[String]) -> (r: Result<Args, ArgError>)
        ensures
            match r {
                Ok(args) => asked(views(raw@), nothing_asked()) == Ok::<ArgsView, Fault>(args@),
                Err(e) => asked(views(raw@), nothing_asked()) == Err::<ArgsView, Fault>(e@),
            },
    {
        let ghost all = views(raw@);
        let mut args = Args {
            config: owned(DEFAULT_CONFIG),
            import_keys: None,
            backfill: None,
        };
        let mut i: usize = 0;
        let end: usize = raw.len();
        assert(all.skip(0) =~= all);
        while i < end
            invariant
                all == views(raw@),
                end == raw@.len(),
                i <= end,
                asked(all, nothing_asked()) == asked(all.skip(i as int), args@),
            decreases end - i,
        {
            let arg = raw[i].as_str();
            let ghost rest = all.skip(i as int);
            assert(rest[0] == arg@);
            let single = i == end - 1;
            assert(single ==> rest.len() == 1);
            if !single {
                assert(rest[1] == all[i + 1]);
                assert(rest.skip(2) =~= all.skip(i + 2));
            }
            if same(arg, "--config") {
                if single {
                    return Err(ArgError::NeedsValue(owned("--config")));
                }
                args.config = raw[i + 1].clone();
            } else if same(arg, "--import-keys") {
                if single {
                    return Err(ArgError::NeedsValue(owned("--import-keys")));
                }
                args.import_keys = Some(raw[i + 1].clone());
            } else if same(arg, "--backfill") {
                if single {
                    args.backfill = Some(DEFAULT_PAGES);
                    return Ok(args);
                }
                match parse_u64(raw[i + 1].as_str()) {
                    Some(n) => {
                        if n > usize::MAX as u64 {
                            return Err(ArgError::NeedsPages);
                        }
                        args.backfill = Some(n as usize);
                    },
                    None => {
                        return Err(ArgError::NeedsPages);
                    },
                }
            } else {
                return Err(ArgError::Unknown(owned(arg)));
            }
            i = i + 2;
        }
        assert(all.skip(i as int) =~= Seq::empty());
        Ok(args)
    }
}

/// The command that runs scripts, where nothing else is said.
pub open spec fn default_runner() -> Seq<Seq<char>> {
    Seq::empty().push("sudo"@).push("-n"@).push("-u"@).push("merlin-exec"@).push(
        "/run/current-system/sw/bin/merlin-sandbox-configured"@,
    )
}

/// The command that runs scripts.
pub open spec fn runner_in(env: Environment) -> Seq<Seq<char>> {
    match var(env.all(), "MERLIN_EXEC_RUNNER"@) {
        Some(v) => if trimmed(v).len() > 0 {
            words(v, Class::White)
        } else {
            default_runner()
        },
        None => default_runner(),
    }
}

/// The command that runs scripts: that of the environment, or else the default.
pub fn exec_runner(env: &Environment) -> (r: Vec<String>)
    ensures
        views(r@) == runner_in(*env),
{
    match env.get("MERLIN_EXEC_RUNNER") {
        Some(v) => {
            if trim(v).unicode_len() > 0 {
                return split_words(v, &Class::White);
            }
        },
        None => {},
    }
    let mut out: Vec<String> = Vec::new();
    out.push(owned("sudo"));
    out.push(owned("-n"));
    out.push(owned("-u"));
    out.push(owned("merlin-exec"));
    out.push(owned("/run/current-system/sw/bin/merlin-sandbox-configured"));
    assert(views(out@) =~= default_runner());
    out
}

/// Where the workspaces lie: where the environment says, or else at the default.
pub fn workspace_dir(env: &Environment) -> (r: String)
    ensures
        r@ == (match var(env.all(), "MERLIN_WORKSPACE"@) {
            Some(v) => if trimmed(v).len() > 0 {
                v
            } else {
                DEFAULT_WORKSPACE@
            },
            None => DEFAULT_WORKSPACE@,
        }),
{
    match env.get("MERLIN_WORKSPACE") {
        Some(v) => {
            if trim(v).unicode_len() > 0 {
                return owned(v);
            }
        },
        None => {},
    }
    owned(DEFAULT_WORKSPACE)
}

/// What the messages of a list hold, as turns of a conversation.
pub open spec fn turn_texts(turns: Seq<Turn>) -> Seq<(Seq<char>, Seq<char>)> {
    Seq::new(turns.len(), |i: int| (turns[i].sender@, turns[i].body@))
}

/// What archived messages hold, without their times.
pub open spec fn archived_texts(rows: Seq<Archived>) -> Seq<(Seq<char>, Seq<char>)> {
    Seq::new(rows.len(), |i: int| (rows[i].sender@, rows[i].body@))
}

/// The messages of a room, or none.
pub open spec fn texts_in(b: Buffers, room_id: Seq<char>) -> Seq<(Seq<char>, Seq<char>)> {
    match b.turns(room_id) {
        Some(turns) => turn_texts(turns),
        None => Seq::empty(),
    }
}

/// Keeping the newest of a list before and after adding to it comes to the same.
proof fn lemma_newest_pushed<T>(s: Seq<T>, x: T, n: nat)
    ensures
        newest(newest(s, n).push(x), n) == newest(s.push(x), n),
{
    assert(newest(newest(s, n).push(x), n) =~= newest(s.push(x), n));
}

/// Refills the context of a room from the archive, oldest first.
pub fn seed_buffers(buffers: &mut Buffers, room_id: &str, rows: Vec<Archived>)
    ensures
        final(buffers).limit() == old(buffers).limit(),
        forall|other: Seq<char>|
            other != room_id@ ==> #[trigger] final(buffers).turns(other) == old(buffers).turns(
                other,
            ),
        rows@.len() > 0 ==> texts_in(*final(buffers), room_id@) == newest(
            texts_in(*old(buffers), room_id@) + archived_texts(rows@),
            old(buffers).limit(),
        ),
        rows@.len() == 0 ==> *final(buffers) == *old(buffers),
{
    let ghost all = archived_texts(rows@);
    let ghost start = texts_in(*buffers, room_id@);
    let ghost n = buffers.limit();
    let mut i: usize = 0;
    while i < rows.len()
        invariant
            all == archived_texts(rows@),
            i <= rows@.len(),
            buffers.limit() == n,
            i == 0 ==> *buffers == *old(buffers),
            start == texts_in(*old(buffers), room_id@),
            i > 0 ==> texts_in(*buffers, room_id@) == newest(start + all.take(i as int), n),
            forall|other: Seq<char>|
                other != room_id@ ==> #[trigger] buffers.turns(other) == old(buffers).turns(other),
        decreases rows@.len() - i,
    {
        let turn = Turn { sender: rows[i].sender.clone(), body: rows[i].body.clone() };
        let ghost before = *buffers;
        let ghost held = texts_in(*buffers, room_id@);
        buffers.push(room_id, turn);
        proof {
            let kept = match before.turns(room_id@) {
                Some(earlier) => earlier,
                None => Seq::empty(),
            };
            let pair = (turn.sender@, turn.body@);
            assert(turn_texts(kept) =~= held);
            assert(turn_texts(newest(kept.push(turn), n)) =~= newest(held.push(pair), n));
            assert(texts_in(*buffers, room_id@) == newest(held.push(pair), n));
            assert(start + all.take(i + 1) =~= (start + all.take(i as int)).push(pair));
            if i > 0 {
                lemma_newest_pushed(start + all.take(i as int), pair, n);
            } else {
                assert(start + all.take(0) =~= start);
            }
        }
        i = i + 1;
    }
    assert(all.take(rows@.len() as int) =~= all);
}

/// What a command line asks for is read flag by flag: the rest goes on from what the front asked for.
proof fn lemma_asked_on(front: Seq<Seq<char>>, rest: Seq<Seq<char>>, so_far: ArgsView)
    requires
        front.len() % 2 == 0,
        asked(front, so_far) is Ok,
    ensures
        asked(front + rest, so_far) == asked(rest, asked(front, so_far)->Ok_0),
    decreases front.len(),
{
    let all = front + rest;
    if front.len() == 0 {
        assert(all =~= rest);
    } else {
        assert(all[0] == front[0] && all[1] == front[1]);
        assert(all.skip(2) =~= front.skip(2) + rest);
        if front[0] == "--config"@ {
            lemma_asked_on(front.skip(2), rest, ArgsView { config: front[1], ..so_far });
        } else if front[0] == "--import-keys"@ {
            lemma_asked_on(front.skip(2), rest, ArgsView { import_keys: Some(front[1]), ..so_far });
        } else {
            let n = page_count(front[1])->0;
            lemma_asked_on(front.skip(2), rest, ArgsView { backfill: Some(n), ..so_far });
        }
    }
}

/// The flags are different from each other.
proof fn lemma_flags()
    ensures
        "--config"@ != "--import-keys"@,
        "--config"@ != "--backfill"@,
        "--import-keys"@ != "--backfill"@,
{
    reveal_strlit("--config");
    reveal_strlit("--import-keys");
    reveal_strlit("--backfill");
    assert("--config"@[2] == 'c' && "--import-keys"@[2] == 'i' && "--backfill"@[2] == 'b');
}

/// A command line that says nothing asks for nothing: the configuration lies where it usually does.
pub proof fn law_an_empty_command_line_asks_for_nothing(raw: &[String], r: Result<Args, ArgError>)
    requires
        call_ensures(Args::parse, (raw,), r),
        raw@.len() == 0,
    ensures
        r matches Ok(args) && args.config@ == "/var/lib/merlin/config.toml"@ && args.import_keys is None
            && args.backfill is None,
{
    assert(views(raw@).len() == 0);
}

/// A flag and its value change what the flag is for and nothing else, and what is said last counts.
/// What is no flag is refused by name, and so is a number of pages that is none.
pub proof fn law_a_flag_changes_what_it_is_for(
    raw: &[String],
    longer: &[String],
    flag: Seq<char>,
    value: Seq<char>,
    a: Result<Args, ArgError>,
    b: Result<Args, ArgError>,
)
    requires
        call_ensures(Args::parse, (raw,), a),
        call_ensures(Args::parse, (longer,), b),
        a is Ok,
        raw@.len() % 2 == 0,
        views(longer@) == views(raw@) + seq![flag, value],
    ensures
        flag == "--config"@ ==> (b matches Ok(args) && args@ == (ArgsView {
            config: value,
            ..a->Ok_0@
        })),
        flag == "--import-keys"@ ==> (b matches Ok(args) && args@ == (ArgsView {
            import_keys: Some(value),
            ..a->Ok_0@
        })),
        flag == "--backfill"@ ==> match parsed_u64(value) {
            Some(n) => n <= usize::MAX ==> (b matches Ok(args) && args@ == (ArgsView {
                backfill: Some(n as usize),
                ..a->Ok_0@
            })),
            None => b == Err::<Args, ArgError>(ArgError::NeedsPages),
        },
        flag != "--config"@ && flag != "--import-keys"@ && flag != "--backfill"@ ==> (b matches Err(
            ArgError::Unknown(arg),
        ) && arg@ == flag),
{
    let more = seq![flag, value];
    lemma_flags();
    lemma_asked_on(views(raw@), more, nothing_asked());
    assert(more.skip(2) =~= Seq::empty());
    reveal_with_fuel(asked, 2);
    if b is Err && flag != "--config"@ && flag != "--import-keys"@ && flag != "--backfill"@ {
        assert(b->Err_0@ == Fault::Unknown(flag));
    }
}

/// A flag without a value is refused by name, but for the one that has a value of its own.
pub proof fn law_a_flag_needs_its_value(
    raw: &[String],
    longer: &[String],
    flag: Seq<char>,
    a: Result<Args, ArgError>,
    b: Result<Args, ArgError>,
)
    requires
        call_ensures(Args::parse, (raw,), a),
        call_ensures(Args::parse, (longer,), b),
        a is Ok,
        raw@.len() % 2 == 0,
        views(longer@) == views(raw@) + seq![flag],
    ensures
        flag == "--config"@ || flag == "--import-keys"@ ==> (b matches Err(ArgError::NeedsValue(arg))
            && arg@ == flag),
        flag == "--backfill"@ ==> (b matches Ok(args) && args@ == (ArgsView {
            backfill: Some(50usize),
            ..a->Ok_0@
        })),
        flag != "--config"@ && flag != "--import-keys"@ && flag != "--backfill"@ ==> (b matches Err(
            ArgError::Unknown(arg),
        ) && arg@ == flag),
{
    lemma_flags();
    lemma_asked_on(views(raw@), seq![flag], nothing_asked());
}

/// What is wrong with the command line can be read in the message.
pub proof fn law_a_fault_of_the_command_line_is_told(e: &ArgError, r: String)
    requires
        call_ensures(ArgError::message, (e,), r),
    ensures
        *e matches ArgError::NeedsValue(flag) ==> begins(r@, flag@),
        *e matches ArgError::Unknown(arg) ==> contains(r@, arg@),
        *e is NeedsPages ==> begins(r@, "--backfill"@),
{
    match e {
        ArgError::NeedsValue(flag) => {
            lemma_added(flag@, " needs a value"@);
        },
        ArgError::Unknown(arg) => {
            lemma_parts("unknown argument '"@, arg@, "'"@);
        },
        ArgError::NeedsPages => {
            reveal_strlit("--backfill needs a page count");
            reveal_strlit("--backfill");
            assert("--backfill needs a page count"@.subrange(0, 10) =~= "--backfill"@);
        },
    }
}

/// What the environment says, unless it is blank, decides what runs scripts and where the workspaces
/// lie. Where it says nothing, scripts are run as another user.
pub proof fn law_the_environment_decides_where_it_says_something(
    env: &Environment,
    runner: Vec<String>,
    dir: String,
)
    requires
        call_ensures(exec_runner, (env,), runner),
        call_ensures(workspace_dir, (env,), dir),
    ensures
        var(env.all(), "MERLIN_EXEC_RUNNER"@) matches Some(v) ==> (trimmed(v).len() > 0 ==> views(
            runner@,
        ) == words(v, Class::White)),
        var(env.all(), "MERLIN_EXEC_RUNNER"@) is None ==> {
            &&& runner@.len() == 5
            &&& runner@[0]@ == "sudo"@
            &&& runner@[2]@ == "-u"@
            &&& runner@[3]@ == "merlin-exec"@
        },
        var(env.all(), "MERLIN_WORKSPACE"@) matches Some(v) ==> (trimmed(v).len() > 0 ==> dir@ == v),
        var(env.all(), "MERLIN_WORKSPACE"@) is None ==> dir@ == "/var/lib/merlin-workspace"@,
{
    assert(views(runner@).len() == runner@.len());
    if var(env.all(), "MERLIN_EXEC_RUNNER"@) is None {
        let v = views(runner@);
        assert(v[0] == runner@[0]@ && v[2] == runner@[2]@ && v[3] == runner@[3]@);
    }
}

/// The context of a room that had none holds what the archive gave, in its order, from whom it came,
/// where there is room for all of it. No other room is touched.
pub proof fn law_the_archive_refills_the_context(
    buffers: &mut Buffers,
    room_id: &str,
    rows: Vec<Archived>,
    other: Seq<char>,
    i: int,
)
    requires
        call_ensures(seed_buffers, (buffers, room_id, rows), ()),
        old(buffers).turns(room_id@) is None,
        0 < rows@.len() <= old(buffers).limit(),
        0 <= i < rows@.len(),
        other != room_id@,
    ensures
        final(buffers).turns(room_id@) matches Some(turns) && {
            &&& turns.len() == rows@.len()
            &&& turns[i].sender@ == rows@[i].sender@
            &&& turns[i].body@ == rows@[i].body@
        },
        final(buffers).turns(other) == old(buffers).turns(other),
{
    let after = texts_in(*final(buffers), room_id@);
    let all = archived_texts(rows@);
    assert(Seq::<(Seq<char>, Seq<char>)>::empty() + all =~= all);
    assert(newest(all, old(buffers).limit()) =~= all);
    assert(after.len() == rows@.len());
    assert(after[i] == all[i]);
}

} // verus!
