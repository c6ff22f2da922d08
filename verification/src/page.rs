//! Which pages can be laid out as text without a fault.
use vstd::prelude::*;

use crate::text::{
    chars_of, contains, has_substring, lowered, occurs_at, to_ascii_lowercase,
};

verus! {

/// Whether the character of a code may make a word wider or narrower than its characters are:
/// the Arabic letters from alef on, the Khmer coeng, the joiners, the Lisu tones that combine, the
/// selectors of a variation, the Kirat Rai vowels, and the modifiers of an emoji.
pub open spec fn joins(code: nat) -> bool {
    ||| 0x622 <= code <= 0x882
    ||| code == 0x17d2
    ||| code == 0x200d
    ||| code == 0x2d7f
    ||| code == 0xa4fc || code == 0xa4fd
    ||| code == 0xfe01 || code == 0xfe0e || code == 0xfe0f
    ||| 0x16d63 <= code <= 0x16d6a
    ||| 0x1f3fb <= code <= 0x1f3ff
}

/// The value of a digit, where a character is one.
pub open spec fn digit_value(c: char, hex: bool) -> Option<nat> {
    if '0' <= c <= '9' {
        Some((c as int - '0' as int) as nat)
    } else if hex && 'a' <= c <= 'f' {
        Some((c as int - 'a' as int + 10) as nat)
    } else if hex && 'A' <= c <= 'F' {
        Some((c as int - 'A' as int + 10) as nat)
    } else {
        None
    }
}

/// The number that goes on with the digits at the front of a text.
pub open spec fn number_with(so_far: nat, s: Seq<char>, hex: bool) -> nat
    decreases s.len(),
{
    if s.len() == 0 {
        so_far
    } else {
        match digit_value(s[0], hex) {
            Some(d) => number_with(
                so_far * (if hex {
                    16nat
                } else {
                    10nat
                }) + d,
                s.skip(1),
                hex,
            ),
            None => so_far,
        }
    }
}

/// The code that a numeric character reference names, given the text behind its number sign.
pub open spec fn referenced(s: Seq<char>) -> nat {
    if s.len() > 0 && (s[0] == 'x' || s[0] == 'X') {
        number_with(0, s.skip(1), true)
    } else {
        number_with(0, s, false)
    }
}

/// Whether what stands at an index of a page, or is referred to there, keeps its width.
pub open spec fn steady_at(html: Seq<char>, i: int) -> bool {
    !joins(html[i] as u32 as nat) && (occurs_at(html, "&#"@, i) ==> !joins(referenced(html.skip(i + 2))))
}

/// Whether as many digits follow each other in a text as a number needs that has no room for more.
pub open spec fn digits_at(s: Seq<char>, i: int) -> bool {
    0 <= i && i + 19 <= s.len() && forall|j: int| i <= j < i + 19 ==> '0' <= #[trigger] s[j] <= '9'
}

/// Whether a page may hold a numbered list that begins near the largest number there is.
pub open spec fn may_overflow(html: Seq<char>) -> bool {
    &&& contains(lowered(html), "<ol"@)
    &&& contains(lowered(html), "start"@)
    &&& contains(html, "&#"@) || exists|i: int| #[trigger] digits_at(html, i)
}

/// Whether a page may hold a table with cells that span rows or columns.
pub open spec fn may_span(html: Seq<char>) -> bool {
    &&& contains(lowered(html), "<table"@)
    &&& contains(lowered(html), "rowspan"@) || contains(lowered(html), "colspan"@)
}

/// Whether a page is plain: its characters keep their widths, and it holds no preformatted text, no
/// cells that span others, and no list with numbers that overflow.
pub open spec fn plain_page(html: Seq<char>) -> bool {
    &&& forall|i: int| 0 <= i < html.len() ==> #[trigger] steady_at(html, i)
    &&& !contains(html, "&zwj;"@)
    &&& !contains(lowered(html), "<pre"@)
    &&& !may_span(html)
    &&& !may_overflow(html)
}

/// Decides whether the character of a code may make a word wider or narrower.
fn is_joining(code: u32) -> (r: bool)
    ensures
        r == joins(code as nat),
{
    (0x622 <= code && code <= 0x882) || code == 0x17d2 || code == 0x200d || code == 0x2d7f || code
        == 0xa4fc || code == 0xa4fd || code == 0xfe01 || code == 0xfe0e || code == 0xfe0f || (0x16d63
        <= code && code <= 0x16d6a) || (0x1f3fb <= code && code <= 0x1f3ff)
}

/// The value of a digit, where a character is one.
fn value_of_digit(c: char, hex: bool) -> (r: Option<u32>)
    ensures
        match r {
            Some(d) => d < 16 && digit_value(c, hex) == Some(d as nat),
            None => digit_value(c, hex) is None,
        },
{
    if '0' <= c && c <= '9' {
        Some(c as u32 - '0' as u32)
    } else if hex && 'a' <= c && c <= 'f' {
        Some(c as u32 - 'a' as u32 + 10)
    } else if hex && 'A' <= c && c <= 'F' {
        Some(c as u32 - 'A' as u32 + 10)
    } else {
        None
    }
}

/// More digits never make a number smaller.
proof fn lemma_number_grows(so_far: nat, s: Seq<char>, hex: bool)
    ensures
        number_with(so_far, s, hex) >= so_far,
    decreases s.len(),
{
    if s.len() > 0 {
        match digit_value(s[0], hex) {
            Some(d) => {
                let radix: nat = if hex {
                    16
                } else {
                    10
                };
                assert(so_far * radix >= so_far) by (nonlinear_arith)
                    requires
                        radix >= 10,
                ;
                lemma_number_grows(so_far * radix + d, s.skip(1), hex);
            },
            None => {},
        }
    }
}

/// Decides whether the number that stands at an index is the code of a joining character.
fn names_joining(s: &Vec<char>, from: usize, hex: bool) -> (r: bool)
    requires
        from <= s@.len(),
    ensures
        r == joins(number_with(0, s@.skip(from as int), hex)),
{
    let mut i: usize = from;
    let mut n: u32 = 0;
    while i < s.len()
        invariant
            from <= i <= s@.len(),
            n <= 0x1fffff,
            number_with(n as nat, s@.skip(i as int), hex) == number_with(
                0,
                s@.skip(from as int),
                hex,
            ),
        decreases s@.len() - i,
    {
        proof {
            assert(s@.skip(i as int).skip(1) =~= s@.skip(i + 1));
            lemma_number_grows(n as nat, s@.skip(i as int), hex);
        }
        if n > 0x1f3ff {
            return false;
        }
        match value_of_digit(s[i], hex) {
            Some(d) => {
                n = n * (if hex {
                    16u32
                } else {
                    10u32
                }) + d;
                i = i + 1;
            },
            None => {
                return is_joining(n);
            },
        }
    }
    is_joining(n)
}

/// Decides whether what stands at an index, or is referred to there, keeps its width.
fn is_steady(s: &Vec<char>, i: usize) -> (r: bool)
    requires
        i < s@.len(),
    ensures
        r == steady_at(s@, i as int),
{
    proof {
        reveal_strlit("&#");
    }
    if is_joining(s[i] as u32) {
        return false;
    }
    assert(i + 2 <= s@.len() ==> s@.subrange(i as int, i + 2) =~= seq![s@[i as int], s@[i + 1]]);
    assert("&#"@ =~= seq!['&', '#']);
    let end: usize = s.len();
    if s[i] != '&' || i + 1 >= end || s[i + 1] != '#' {
        assert(!occurs_at(s@, "&#"@, i as int)) by {
            if occurs_at(s@, "&#"@, i as int) {
                let here = s@.subrange(i as int, i + 2);
                assert(here[0] == '&' && here[1] == '#');
            }
        }
        return true;
    }
    let from: usize = i + 2;
    let ghost rest = s@.skip(from as int);
    if from < end && (s[from] == 'x' || s[from] == 'X') {
        assert(rest.skip(1) =~= s@.skip(from + 1));
        !names_joining(s, from + 1, true)
    } else {
        !names_joining(s, from, false)
    }
}

/// Decides whether a number without room for more digits stands in a text.
fn has_long_number(s: &Vec<char>) -> (r: bool)
    ensures
        r == exists|i: int| #[trigger] digits_at(s@, i),
{
    let mut run: usize = 0;
    for i in 0..s.len()
        invariant
            run <= i,
            run < 19,
            forall|j: int| i - run <= j < i ==> '0' <= #[trigger] s@[j] <= '9',
            run < i ==> !('0' <= s@[i - run - 1] <= '9'),
            forall|k: int| k + 19 <= i ==> !#[trigger] digits_at(s@, k),
    {
        let c = s[i];
        if '0' <= c && c <= '9' {
            run = run + 1;
            if run == 19 {
                assert(digits_at(s@, i - 18));
                return true;
            }
            assert forall|k: int| k + 19 <= i + 1 implies !#[trigger] digits_at(s@, k) by {
                if k + 19 == i + 1 && digits_at(s@, k) {
                    assert('0' <= s@[i + 1 - run - 1] <= '9');
                }
            }
        } else {
            run = 0;
            assert forall|k: int| k + 19 <= i + 1 implies !#[trigger] digits_at(s@, k) by {
                if k + 19 == i + 1 && digits_at(s@, k) {
                    assert('0' <= s@[i as int] <= '9');
                }
            }
        }
    }
    false
}

/// Decides whether a page is plain.
pub fn is_plain(html: &str) -> (r: bool)
    ensures
        r == plain_page(html@),
{
    let chars = chars_of(html);
    for i in 0..chars.len()
        invariant
            chars@ == html@,
            forall|j: int| 0 <= j < i ==> #[trigger] steady_at(html@, j),
    {
        if !is_steady(&chars, i) {
            return false;
        }
    }
    let low = to_ascii_lowercase(html);
    let spans = has_substring(low.as_str(), "<table") && (has_substring(low.as_str(), "rowspan")
        || has_substring(low.as_str(), "colspan"));
    let overflows = has_substring(low.as_str(), "<ol") && has_substring(low.as_str(), "start") && (
    has_substring(html, "&#") || has_long_number(&chars));
    !has_substring(html, "&zwj;") && !has_substring(low.as_str(), "<pre") && !spans && !overflows
}

/// A page is taken apart by what it holds: preformatted text, a character that changes its width or
/// a joiner by name keeps a page from being plain, wherever it stands and however tags are written.
pub proof fn law_a_plain_page_holds_nothing_that_overflows(html: &str, r: bool, i: int)
    requires
        call_ensures(is_plain, (html,), r),
        r,
    ensures
        0 <= i < html@.len() ==> html@[i] != '\u{200d}' && html@[i] != '\u{fe0f}',
        !contains(html@, "&zwj;"@),
        !contains(lowered(html@), "<pre"@),
        contains(lowered(html@), "<table"@) ==> !contains(lowered(html@), "rowspan"@) && !contains(
            lowered(html@),
            "colspan"@,
        ),
        contains(lowered(html@), "<ol"@) && contains(lowered(html@), "start"@) ==> !contains(
            html@,
            "&#"@,
        ),
{
    if 0 <= i < html@.len() {
        assert(steady_at(html@, i));
    }
}

/// A text without a character does not hold one that begins with it.
proof fn lemma_lacks(s: Seq<char>, needle: Seq<char>, c: char)
    requires
        forall|i: int| 0 <= i < s.len() ==> s[i] != c,
        needle.len() > 0,
        needle[0] == c,
    ensures
        !contains(s, needle),
{
    assert forall|i: int| !#[trigger] occurs_at(s, needle, i) by {
        if occurs_at(s, needle, i) {
            assert(s.subrange(i, i + needle.len())[0] == s[i]);
        }
    }
}

/// A plain letter keeps its width.
proof fn lemma_plain_letter(c: char)
    requires
        c < '\u{80}',
    ensures
        !joins(c as u32 as nat),
{
}

/// Running text in plain letters is plain: without a tag and without a reference nothing is in the
/// way.
pub proof fn law_running_text_is_plain(html: &str, r: bool)
    requires
        call_ensures(is_plain, (html,), r),
        forall|i: int|
            0 <= i < html@.len() ==> #[trigger] html@[i] < '\u{80}' && html@[i] != '<' && html@[i]
                != '&',
    ensures
        r,
{
    let s = html@;
    let low = lowered(s);
    reveal_strlit("&zwj;");
    reveal_strlit("&#");
    reveal_strlit("<pre");
    reveal_strlit("<table");
    reveal_strlit("<ol");
    assert forall|i: int| 0 <= i < low.len() implies low[i] != '<' by {
        assert(s[i] != '<');
    }
    lemma_lacks(s, "&zwj;"@, '&');
    lemma_lacks(s, "&#"@, '&');
    lemma_lacks(low, "<pre"@, '<');
    lemma_lacks(low, "<table"@, '<');
    lemma_lacks(low, "<ol"@, '<');
    assert forall|i: int| 0 <= i < s.len() implies #[trigger] steady_at(s, i) by {
        assert(s[i] < '\u{80}');
        lemma_plain_letter(s[i]);
        assert(!occurs_at(s, "&#"@, i));
    }
}

} // verus!
