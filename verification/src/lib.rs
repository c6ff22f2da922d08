//! merlin, a Matrix assistant.
//!
//! This crate holds what merlin decides and computes. Talking to the homeserver, the model
//! provider, the database and the file system is left to the program around it, which performs
//! the actions that this crate asks for and hands back what came of them.
use vstd::prelude::*;

pub mod agent;
pub mod backfill;
pub mod cli;
pub mod commands;
pub mod config;
pub mod cron;
pub mod db;
pub mod definitions;
pub mod dream;
pub mod embed;
pub mod exec;
pub mod image;
pub mod json;
pub mod llm;
pub mod matrix;
pub mod memory;
pub mod messages;
pub mod notes;
pub mod outside;
pub mod page;
pub mod query;
pub mod rank;
pub mod room;
pub mod scheduler;
pub mod search;
pub mod tables;
pub mod text;
pub mod tools;
pub mod workspace;

use crate::text::{byte_len, chars_of, owned, width_of};

verus! {

/// The longest prefix of `s` that takes at most `max` bytes.
pub open spec fn fitting(s: Seq<char>, max: nat) -> Seq<char>
    decreases s.len(),
{
    if byte_len(s) <= max || s.len() == 0 {
        s
    } else {
        fitting(s.drop_last(), max)
    }
}

/// `s` cut to a byte budget, with an ellipsis where something was cut.
pub open spec fn truncated(s: Seq<char>, max: nat) -> Seq<char> {
    if byte_len(s) <= max {
        s
    } else {
        fitting(s, max).push('\u{2026}')
    }
}

/// A prefix takes no more bytes than the whole.
proof fn lemma_prefix_bytes(s: Seq<char>, i: int)
    requires
        0 <= i <= s.len(),
    ensures
        byte_len(s.take(i)) <= byte_len(s),
{
    text::lemma_byte_len_add(s.take(i), s.skip(i));
    assert(s.take(i) + s.skip(i) =~= s);
}

/// The longest fitting prefix ends where the next character would not fit.
proof fn lemma_fitting_at(s: Seq<char>, max: nat, i: int)
    requires
        0 <= i < s.len(),
        byte_len(s.take(i)) <= max,
        byte_len(s.take(i + 1)) > max,
    ensures
        byte_len(s) > max,
        fitting(s, max) == s.take(i),
    decreases s.len(),
{
    lemma_prefix_bytes(s, i + 1);
    if i + 1 == s.len() {
        reveal_with_fuel(fitting, 2);
        assert(s.drop_last() =~= s.take(i));
    } else {
        assert(s.drop_last().take(i) =~= s.take(i));
        assert(s.drop_last().take(i + 1) =~= s.take(i + 1));
        lemma_fitting_at(s.drop_last(), max, i);
    }
}

/// What is kept of a string fits the budget, is a prefix of it, and is the longest such prefix.
pub proof fn law_truncate_keeps_the_longest_prefix(s: Seq<char>, max: nat)
    ensures
        byte_len(fitting(s, max)) <= max,
        fitting(s, max).len() <= s.len(),
        fitting(s, max) == s.take(fitting(s, max).len() as int),
        forall|i: int|
            fitting(s, max).len() < i <= s.len() ==> byte_len(#[trigger] s.take(i)) > max,
    decreases s.len(),
{
    if byte_len(s) <= max || s.len() == 0 {
        assert(s.take(s.len() as int) =~= s);
        assert(s.len() == 0 ==> vstd::utf8::encode_utf8(s) =~= Seq::empty());
    } else {
        let t = s.drop_last();
        law_truncate_keeps_the_longest_prefix(t, max);
        assert(t.take(fitting(t, max).len() as int) =~= s.take(fitting(t, max).len() as int));
        assert forall|i: int| fitting(s, max).len() < i <= s.len() implies byte_len(
            #[trigger] s.take(i),
        ) > max by {
            if i == s.len() {
                assert(s.take(i) =~= s);
            } else {
                assert(t.take(i) =~= s.take(i));
            }
        }
    }
}

/// A cut string exceeds its budget by no more than the three bytes of the ellipsis.
pub proof fn law_truncate_bounds_the_length(s: Seq<char>, max: nat)
    ensures
        byte_len(truncated(s, max)) <= max + 3,
{
    law_truncate_keeps_the_longest_prefix(s, max);
    text::lemma_byte_len_push(fitting(s, max), '\u{2026}');
}

/// A text that fits its budget stays as it is. One that does not is cut to the longest prefix that
/// fits, with an ellipsis behind it and nothing else.
pub proof fn law_truncate_cuts_only_what_is_too_long(s: &str, max: usize, r: String)
    requires
        call_ensures(truncate, (s, max), r),
    ensures
        byte_len(s@) <= max ==> r@ == s@,
        byte_len(s@) > max ==> {
            let kept = r@.len() - 1;
            &&& 0 <= kept < s@.len()
            &&& r@.take(kept) == s@.take(kept)
            &&& r@.last() == '\u{2026}'
            &&& byte_len(s@.take(kept)) <= max
            &&& byte_len(s@.take(kept + 1)) > max
        },
{
    law_truncate_keeps_the_longest_prefix(s@, max as nat);
    if byte_len(s@) > max {
        let f = fitting(s@, max as nat);
        assert(r@.take(f.len() as int) =~= f);
        assert(s@.take(s@.len() as int) =~= s@);
    }
}

/// The longest prefix of a string that fits a byte budget.
pub fn cut(s: &str, max: usize) -> (r: String)
    ensures
        r@ == fitting(s@, max as nat),
{
    let v = chars_of(s);
    let mut used: usize = 0;
    let mut kept = String::new();
    assert(v@.take(0) =~= Seq::empty());
    assert(vstd::utf8::encode_utf8(Seq::<char>::empty()) =~= Seq::empty());
    for i in 0..v.len()
        invariant
            v@ == s@,
            kept@ == v@.take(i as int),
            used == byte_len(v@.take(i as int)),
            used <= max,
    {
        let w = width_of(v[i]);
        proof {
            assert(v@.take(i + 1) =~= v@.take(i as int).push(v@[i as int]));
            text::lemma_byte_len_push(v@.take(i as int), v@[i as int]);
        }
        if w > max - used {
            proof {
                lemma_fitting_at(s@, max as nat, i as int);
            }
            return kept;
        }
        used = used + w;
        kept.push(v[i]);
    }
    assert(v@.take(v@.len() as int) =~= v@);
    kept
}

/// Cut a string to a byte budget on a character boundary.
/// Shared because both tool output and sandbox output need it and neither owns it.
pub fn truncate(s: &str, max: usize) -> (r: String)
    ensures
        r@ == truncated(s@, max as nat),
{
    if s.as_bytes().len() <= max {
        owned(s)
    } else {
        let mut out = cut(s, max);
        out.push('\u{2026}');
        out
    }
}

} // verus!
