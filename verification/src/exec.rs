//! The sandbox in which scripts run: how it is called, and what is kept of what it prints.
use vstd::prelude::*;
use vstd::string::StringExecFns;

use crate::db::{key_of_room, room_key};
use crate::text::{
    chars_of, decimal, decimal_of, from_utf8_lossy, lossy, owned, parse_u64, parsed_u64, slice_of,
    string_of, trim, trimmed, views,
};
use crate::truncated;

verus! {

/// How much of each output stream is kept, in bytes.
pub const MAX_OUTPUT: usize = 24000;

/// How scripts are run.
pub struct Sandbox {
    runner: Vec<String>,
    timeout_s: u64,
    memory_max: String,
}

/// What a script left behind.
#[derive(Debug)]
pub struct Output {
    pub stdout: String,
    pub stderr: String,
    pub exit_code: Option<i32>,
    pub timed_out: bool,
}

/// What to call: a program and its arguments. The script goes to its standard input.
#[derive(Debug)]
pub struct Invocation {
    pub program: String,
    pub args: Vec<String>,
}

/// Why nothing can be called.
#[derive(Debug)]
pub enum ExecError {
    NoRunner,
}

impl ExecError {
    /// How the error reads.
    pub fn message(&self) -> (r: String)
        ensures
            r@ == "exec runner is empty; nothing to invoke"@,
    {
        owned("exec runner is empty; nothing to invoke")
    }
}

/// How many kilobytes one unit of a size stands for.
pub open spec fn unit(c: char) -> Option<nat> {
    if c == 'G' || c == 'g' {
        Some(1048576)
    } else if c == 'M' || c == 'm' {
        Some(1024)
    } else if c == 'K' || c == 'k' {
        Some(1)
    } else {
        None
    }
}

/// The number that a text writes, or zero where it writes none.
pub open spec fn number_or_zero(s: Seq<char>) -> nat {
    match parsed_u64(trimmed(s)) {
        Some(n) => n as nat,
        None => 0,
    }
}

/// A size in kilobytes: a number, with a unit of G, M or K behind it, or with none for kilobytes.
/// A text that is no such size counts as zero.
pub open spec fn kilobytes(size: Seq<char>) -> nat {
    let raw = trimmed(size);
    if raw.len() > 0 && unit(raw.last()) is Some {
        number_or_zero(raw.drop_last()) * unit(raw.last())->0
    } else {
        number_or_zero(raw)
    }
}

/// Reads the number that a text writes, or zero where it writes none.
fn number_of(s: &str) -> (r: u64)
    ensures
        r == number_or_zero(s@),
{
    match parse_u64(trim(s)) {
        Some(n) => n,
        None => 0,
    }
}

/// Reads a size in kilobytes, where it can be held.
pub fn checked_kb(size: &str) -> (r: Option<u64>)
    ensures
        match r {
            Some(n) => n == kilobytes(size@),
            None => kilobytes(size@) > u64::MAX,
        },
{
    let raw = trim(size);
    let chars = chars_of(raw);
    if chars.len() == 0 {
        return Some(number_of(raw));
    }
    let last = chars[chars.len() - 1];
    let scale: u64 = if last == 'G' || last == 'g' {
        1048576
    } else if last == 'M' || last == 'm' {
        1024
    } else if last == 'K' || last == 'k' {
        1
    } else {
        return Some(number_of(raw));
    };
    let kept = slice_of(&chars, 0, chars.len() - 1);
    assert(kept@ =~= raw@.drop_last());
    let digits = string_of(kept.as_slice());
    let n: u64 = number_of(digits.as_str());
    assert(kilobytes(size@) == n * scale);
    n.checked_mul(scale)
}

/// Reads a size in kilobytes.
pub fn address_space_kb(size: &str) -> (r: u64)
    requires
        kilobytes(size@) <= u64::MAX,
    ensures
        r == kilobytes(size@),
{
    match checked_kb(size) {
        Some(n) => n,
        None => 0,
    }
}

/// What the runner is handed behind its own arguments: the timeout in seconds, the address space in
/// kilobytes, and the name under which the room is filed.
pub open spec fn limits(timeout_s: u64, memory_max: Seq<char>, room_id: Seq<char>) -> Seq<
    Seq<char>,
> {
    Seq::empty().push(decimal(timeout_s as nat)).push(decimal(kilobytes(memory_max))).push(
        key_of_room(room_id),
    )
}

impl Sandbox {
    /// The command that runs scripts.
    pub closed spec fn runner_view(&self) -> Seq<Seq<char>> {
        views(self.runner@)
    }

    /// The seconds after which a script is killed.
    pub closed spec fn timeout_view(&self) -> u64 {
        self.timeout_s
    }

    /// The memory that a script may take.
    pub closed spec fn memory_view(&self) -> Seq<char> {
        self.memory_max@
    }

    /// A sandbox that is called through the given command.
    pub fn new(runner: Vec<String>, timeout_s: u64, memory_max: String) -> (r: Self)
        ensures
            r.runner_view() == views(runner@),
            r.timeout_view() == timeout_s,
            r.memory_view() == memory_max@,
    {
        Sandbox { runner, timeout_s, memory_max }
    }

    /// The seconds after which a script is killed.
    pub fn timeout_s(&self) -> (r: u64)
        ensures
            r == self.timeout_view(),
    {
        self.timeout_s
    }

    /// The memory that a script may take.
    pub fn memory_max(&self) -> (r: &str)
        ensures
            r@ == self.memory_view(),
    {
        self.memory_max.as_str()
    }

    /// What to call in order to run a script for a room.
    pub fn run(&self, room_id: &str) -> (r: Result<Invocation, ExecError>)
        requires
            kilobytes(self.memory_view()) <= u64::MAX,
        ensures
            match r {
                Ok(i) => self.runner_view().len() > 0 && i.program@ == self.runner_view()[0]
                    && views(i.args@) == self.runner_view().drop_first() + limits(
                    self.timeout_view(),
                    self.memory_view(),
                    room_id@,
                ),
                Err(e) => self.runner_view().len() == 0 && e == ExecError::NoRunner,
            },
    {
        if self.runner.len() == 0 {
            return Err(ExecError::NoRunner);
        }
        let program = self.runner[0].clone();
        let ghost all = self.runner_view();
        let mut args: Vec<String> = Vec::new();
        assert(views(args@) =~= all.subrange(1, 1));
        for i in 1..self.runner.len()
            invariant
                all == views(self.runner@),
                self.runner@.len() > 0,
                views(args@) == all.subrange(1, i as int),
        {
            let ghost before = views(args@);
            let arg = self.runner[i].clone();
            args.push(arg);
            assert(views(args@) =~= before.push(arg@));
            assert(all.subrange(1, i + 1) =~= before.push(arg@));
        }
        let ghost own = views(args@);
        assert(own =~= all.drop_first());
        args.push(decimal_of(self.timeout_s));
        args.push(decimal_of(address_space_kb(self.memory_max.as_str())));
        args.push(room_key(room_id));
        assert(views(args@) =~= own + limits(self.timeout_s, self.memory_max@, room_id@));
        Ok(Invocation { program, args })
    }

    /// What a script left behind that was killed.
    pub fn killed(&self) -> (r: Output)
        ensures
            r.stdout@ == Seq::<char>::empty(),
            r.stderr@ == "execution exceeded "@ + decimal(self.timeout_view() as nat)
                + "s and was killed"@,
            r.exit_code is None,
            r.timed_out,
    {
        let mut stderr = owned("execution exceeded ");
        stderr.append(decimal_of(self.timeout_s).as_str());
        stderr.append("s and was killed");
        Output { stdout: String::new(), stderr, exit_code: None, timed_out: true }
    }
}

/// What is kept of a script that came to its end.
pub fn finished(stdout: &[u8], stderr: &[u8], exit_code: Option<i32>) -> (r: Output)
    ensures
        r.stdout@ == truncated(lossy(stdout@), MAX_OUTPUT as nat),
        r.stderr@ == truncated(lossy(stderr@), MAX_OUTPUT as nat),
        r.exit_code == exit_code,
        !r.timed_out,
{
    Output {
        stdout: crate::truncate(from_utf8_lossy(stdout).as_str(), MAX_OUTPUT),
        stderr: crate::truncate(from_utf8_lossy(stderr).as_str(), MAX_OUTPUT),
        exit_code,
        timed_out: false,
    }
}

// ---------------------------------------------------------------------------------------------
// Laws
// ---------------------------------------------------------------------------------------------

/// A script is run by the command that was set up, with its own arguments first; behind them come the
/// timeout in seconds, the address space in kilobytes and the name under which the room is filed, in this
/// order, and nothing else.
pub proof fn law_a_script_is_run_within_its_limits(
    sandbox: &Sandbox,
    room_id: &str,
    r: Result<Invocation, ExecError>,
    k: int,
)
    requires
        call_ensures(Sandbox::run, (sandbox, room_id), r),
        kilobytes(sandbox.memory_view()) <= u64::MAX,
        sandbox.runner_view().len() > 0,
    ensures
        r matches Ok(i) && {
            let own = sandbox.runner_view().len() - 1;
            &&& i.program@ == sandbox.runner_view()[0]
            &&& i.args@.len() == own + 3
            &&& 0 <= k < own ==> i.args@[k]@ == sandbox.runner_view()[k + 1]
            &&& parsed_u64(i.args@[own]@) == Some(sandbox.timeout_view())
            &&& parsed_u64(i.args@[own + 1]@) == Some(kilobytes(sandbox.memory_view()) as u64)
            &&& i.args@[own + 2]@ == key_of_room(room_id@)
        },
{
    let i = r->Ok_0;
    let own = sandbox.runner_view().len() - 1;
    let all = sandbox.runner_view().drop_first() + limits(
        sandbox.timeout_view(),
        sandbox.memory_view(),
        room_id@,
    );
    assert(views(i.args@) == all);
    assert(views(i.args@).len() == i.args@.len());
    assert(views(i.args@)[own] == i.args@[own]@);
    assert(views(i.args@)[own + 1] == i.args@[own + 1]@);
    assert(views(i.args@)[own + 2] == i.args@[own + 2]@);
    if 0 <= k < own {
        assert(views(i.args@)[k] == i.args@[k]@);
    }
    crate::text::law_a_written_number_is_read_back(sandbox.timeout_view());
    crate::text::law_a_written_number_is_read_back(kilobytes(sandbox.memory_view()) as u64);
}

/// Without a command nothing is run.
pub proof fn law_without_a_runner_nothing_is_run(
    sandbox: &Sandbox,
    room_id: &str,
    r: Result<Invocation, ExecError>,
)
    requires
        call_ensures(Sandbox::run, (sandbox, room_id), r),
        kilobytes(sandbox.memory_view()) <= u64::MAX,
    ensures
        r is Ok <==> sandbox.runner_view().len() > 0,
{
}

/// A sandbox keeps the command, the timeout and the memory that it was set up with.
pub proof fn law_a_sandbox_keeps_its_limits(
    runner: Vec<String>,
    timeout_s: u64,
    memory_max: String,
    r: Sandbox,
    timeout: u64,
    memory: &str,
)
    requires
        call_ensures(Sandbox::new, (runner, timeout_s, memory_max), r),
        call_ensures(Sandbox::timeout_s, (&r,), timeout),
        call_ensures(Sandbox::memory_max, (&r,), memory),
    ensures
        timeout == timeout_s,
        memory@ == memory_max@,
        r.runner_view() == views(runner@),
{
}

/// A size is its number in kilobytes, times a thousand and twenty-four for each step from K to M to G; in
/// either case of the unit. Without a unit it is in kilobytes.
pub proof fn law_sizes_are_read_by_their_unit(n: u64, text: &str, r: u64, c: char)
    requires
        call_ensures(address_space_kb, (text,), r),
        kilobytes(text@) <= u64::MAX,
    ensures
        text@ == decimal(n as nat) ==> r == n,
        text@ == decimal(n as nat).push(c) && (c == 'K' || c == 'k') ==> r == n,
        text@ == decimal(n as nat).push(c) && (c == 'M' || c == 'm') ==> r == n * 1024,
        text@ == decimal(n as nat).push(c) && (c == 'G' || c == 'g') ==> r == n * 1024 * 1024,
{
    let digits = decimal(n as nat);
    crate::text::lemma_decimal_value(n as nat);
    crate::text::law_a_written_number_is_read_back(n);
    assert(digits.len() > 0);
    assert('0' <= digits[0] <= '9');
    assert('0' <= digits[digits.len() - 1] <= '9');
    crate::text::lemma_trimmed_already(digits);
    let with = digits.push(c);
    assert(with.drop_last() =~= digits);
    if c == 'K' || c == 'k' || c == 'M' || c == 'm' || c == 'G' || c == 'g' {
        assert(with[0] == digits[0]);
        crate::text::lemma_trimmed_already(with);
        assert(kilobytes(with) == number_or_zero(digits) * unit(c)->0);
        assert(number_or_zero(digits) == n);
        assert(n * 1 == n) by (nonlinear_arith);
        assert(n * 1048576 == n * 1024 * 1024) by (nonlinear_arith);
    }
}

/// What a script printed is kept as it printed it, each stream for itself, as long as it is text and does
/// not grow beyond what is kept; and how it ended is.
pub proof fn law_the_streams_are_kept_apart(
    stdout: &[u8],
    stderr: &[u8],
    exit_code: Option<i32>,
    r: Output,
    printed: Seq<char>,
    complained: Seq<char>,
)
    requires
        call_ensures(finished, (stdout, stderr, exit_code), r),
        stdout@ == vstd::utf8::encode_utf8(printed),
        stderr@ == vstd::utf8::encode_utf8(complained),
    ensures
        stdout@.len() <= 24000 ==> r.stdout@ == printed,
        stderr@.len() <= 24000 ==> r.stderr@ == complained,
        crate::text::begins(r.stdout@, crate::fitting(printed, 24000)),
        crate::text::begins(r.stderr@, crate::fitting(complained, 24000)),
        r.exit_code == exit_code,
        !r.timed_out,
{
    vstd::utf8::encode_utf8_valid_utf8(printed);
    vstd::utf8::encode_utf8_decode_utf8(printed);
    vstd::utf8::encode_utf8_valid_utf8(complained);
    vstd::utf8::encode_utf8_decode_utf8(complained);
    let f = crate::fitting(printed, 24000);
    let g = crate::fitting(complained, 24000);
    assert(r.stdout@.subrange(0, f.len() as int) =~= f);
    assert(r.stderr@.subrange(0, g.len() as int) =~= g);
}

/// A script that was killed printed nothing that is kept, has no code, and is told to have taken longer
/// than the timeout.
pub proof fn law_a_killed_script_took_too_long(sandbox: &Sandbox, r: Output)
    requires
        call_ensures(Sandbox::killed, (sandbox,), r),
    ensures
        r.timed_out && r.exit_code is None && r.stdout@.len() == 0,
        crate::text::contains(r.stderr@, decimal(sandbox.timeout_view() as nat)),
{
    crate::text::lemma_parts(
        "execution exceeded "@,
        decimal(sandbox.timeout_view() as nat),
        "s and was killed"@,
    );
}

} // verus!
