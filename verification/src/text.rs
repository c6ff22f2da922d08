//! Strings as sequences of characters.
//!
//! The executable functions mirror the parts of the standard library that the rest of the crate
//! leans on, each with an exact description over the character sequence of a string.
use vstd::prelude::*;
use vstd::string::StringExecFns;
use vstd::utf8::{encode_scalar, encode_utf8};

verus! {

/// Whether a character has the Unicode `White_Space` property.
pub open spec fn white_space(c: char) -> bool {
    ||| 0x9 <= c as u32 <= 0xd
    ||| c as u32 == 0x20
    ||| c as u32 == 0x85
    ||| c as u32 == 0xa0
    ||| c as u32 == 0x1680
    ||| 0x2000 <= c as u32 <= 0x200a
    ||| 0x2028 <= c as u32 <= 0x2029
    ||| c as u32 == 0x202f
    ||| c as u32 == 0x205f
    ||| c as u32 == 0x3000
}

/// Whether a character is an ASCII letter or digit.
pub open spec fn ascii_alphanumeric(c: char) -> bool {
    ||| '0' <= c <= '9'
    ||| 'A' <= c <= 'Z'
    ||| 'a' <= c <= 'z'
}

/// Decides whether a character is an ASCII letter or digit.
pub fn is_ascii_alphanumeric(c: char) -> (b: bool)
    ensures
        b == ascii_alphanumeric(c),
{
    ('0' <= c && c <= '9') || ('A' <= c && c <= 'Z') || ('a' <= c && c <= 'z')
}

/// What `char::is_alphanumeric` says of a character.
pub uninterp spec fn unicode_alphanumeric(c: char) -> bool;

/// What `str::to_lowercase` makes of a string.
pub uninterp spec fn unicode_lowercase(s: Seq<char>) -> Seq<char>;

/// What `String::from_utf8_lossy` makes of bytes.
pub uninterp spec fn mended(bytes: Seq<u8>) -> Seq<char>;

/// Whether a text holds ASCII characters only.
pub open spec fn ascii(s: Seq<char>) -> bool {
    forall|i: int| 0 <= i < s.len() ==> (#[trigger] s[i] as u32) < 128
}

/// Whether a character is alphabetic or numeric: in ASCII a letter or a digit, else by Unicode.
pub open spec fn alphanumeric(c: char) -> bool {
    if (c as u32) < 128 {
        ascii_alphanumeric(c)
    } else {
        unicode_alphanumeric(c)
    }
}

/// The lowercase equivalent of a string, by the Unicode derived property `Lowercase`. In ASCII that
/// is the string with its letters in lower case.
pub open spec fn lowercase(s: Seq<char>) -> Seq<char> {
    if ascii(s) {
        lowered(s)
    } else {
        unicode_lowercase(s)
    }
}

/// What bytes read as: their text where they are well formed, and else what is left when every
/// malformed part is replaced by U+FFFD.
pub open spec fn lossy(bytes: Seq<u8>) -> Seq<char> {
    if vstd::utf8::valid_utf8(bytes) {
        vstd::utf8::decode_utf8(bytes)
    } else {
        mended(bytes)
    }
}

/// `char::is_whitespace` is true exactly on the characters with the `White_Space` property.
pub assume_specification[ char::is_whitespace ](c: char) -> (b: bool)
    ensures
        b == white_space(c),
;

/// `char::is_alphanumeric` depends on the character alone, and on ASCII picks letters and digits.
pub assume_specification[ char::is_alphanumeric ](c: char) -> (b: bool)
    ensures
        b == unicode_alphanumeric(c),
        (c as u32) < 128 ==> b == ascii_alphanumeric(c),
;

/// `String::push` appends one character.
pub assume_specification[ String::push ](s: &mut String, c: char)
    ensures
        final(s)@ == old(s)@.push(c),
;

/// Calls `str::to_lowercase`. The result depends on the string alone; of a string of ASCII
/// characters it is the string with the letters `A` to `Z` in lower case.
#[verifier::external_body]
fn lowercase_of(s: &str) -> (r: String)
    ensures
        r@ == unicode_lowercase(s@),
        ascii(s@) ==> r@ == lowered(s@),
{
    s.to_lowercase()
}

/// Calls `String::from_utf8_lossy`. The result depends on the bytes alone; bytes that are valid
/// UTF-8 give the string that they encode.
#[verifier::external_body]
fn mended_of(bytes: &[u8]) -> (r: String)
    ensures
        r@ == mended(bytes@),
        vstd::utf8::valid_utf8(bytes@) ==> r@ == vstd::utf8::decode_utf8(bytes@),
{
    String::from_utf8_lossy(bytes).into_owned()
}

/// The lowercase equivalent of a string.
pub fn to_lowercase(s: &str) -> (r: String)
    ensures
        r@ == lowercase(s@),
{
    lowercase_of(s)
}

/// What bytes read as.
pub fn from_utf8_lossy(bytes: &[u8]) -> (r: String)
    ensures
        r@ == lossy(bytes@),
{
    mended_of(bytes)
}

/// The characters of a string.
pub fn chars_of(s: &str) -> (r: Vec<char>)
    ensures
        r@ == s@,
{
    let mut out: Vec<char> = Vec::new();
    for c in it: s.chars()
        invariant
            out@ == s@.take(it.index()),
            it.seq() == s@,
    {
        assert(s@.take(it.index() + 1) =~= s@.take(it.index() as int).push(c));
        out.push(c);
    }
    assert(s@.take(s@.len() as int) =~= s@);
    out
}

/// Whether two strings hold the same characters.
pub fn same(a: &str, b: &str) -> (r: bool)
    ensures
        r == (a@ == b@),
{
    let x = chars_of(a);
    let y = chars_of(b);
    if x.len() != y.len() {
        return false;
    }
    for i in 0..x.len()
        invariant
            x@ == a@,
            y@ == b@,
            x@.len() == y@.len(),
            forall|k: int| 0 <= k < i ==> x@[k] == #[trigger] y@[k],
    {
        if x[i] != y[i] {
            return false;
        }
    }
    assert(a@ =~= b@);
    true
}

/// The string with the given characters.
pub fn string_of(v: &[char]) -> (r: String)
    ensures
        r@ == v@,
{
    let mut out = String::new();
    for i in 0..v.len()
        invariant
            out@ == v@.take(i as int),
    {
        assert(v@.take(i + 1) =~= v@.take(i as int).push(v@[i as int]));
        out.push(v[i]);
    }
    assert(v@.take(v@.len() as int) =~= v@);
    out
}

/// An owned copy of a string.
pub fn owned(s: &str) -> (r: String)
    ensures
        r@ == s@,
{
    String::from_str(s)
}

/// Copies a range of characters.
pub fn slice_of(v: &Vec<char>, from: usize, to: usize) -> (r: Vec<char>)
    requires
        from <= to <= v@.len(),
    ensures
        r@ == v@.subrange(from as int, to as int),
{
    let mut out: Vec<char> = Vec::new();
    for i in from..to
        invariant
            from <= to <= v@.len(),
            out@ == v@.subrange(from as int, i as int),
    {
        out.push(v[i]);
        assert(out@ =~= v@.subrange(from as int, i + 1));
    }
    out
}

/// The character sequences of a list of strings.
pub open spec fn views(v: Seq<String>) -> Seq<Seq<char>> {
    Seq::new(v.len(), |i: int| v[i]@)
}

/// Whether a list of strings holds the given one.
pub fn holds(v: &[String], s: &str) -> (r: bool)
    ensures
        r == views(v@).contains(s@),
{
    for i in 0..v.len()
        invariant
            forall|j: int| 0 <= j < i ==> #[trigger] v@[j]@ != s@,
    {
        if same(v[i].as_str(), s) {
            assert(views(v@)[i as int] == s@);
            return true;
        }
    }
    assert forall|j: int| 0 <= j < views(v@).len() implies views(v@)[j] != s@ by {
        assert(v@[j]@ != s@);
    }
    false
}

/// A letter of the ASCII alphabet in lower case; any other character as it is.
pub open spec fn lower(c: char) -> char {
    if 'A' <= c <= 'Z' {
        (c as u8 + 32) as char
    } else {
        c
    }
}

/// The text with its ASCII letters in lower case.
pub open spec fn lowered(s: Seq<char>) -> Seq<char> {
    Seq::new(s.len(), |i: int| lower(s[i]))
}

/// Puts the ASCII letters of a text in lower case.
pub fn to_ascii_lowercase(s: &str) -> (r: String)
    ensures
        r@ == lowered(s@),
{
    let v = chars_of(s);
    let mut out = String::new();
    for i in 0..v.len()
        invariant
            v@ == s@,
            out@ == lowered(s@).take(i as int),
    {
        let c = v[i];
        if 'A' <= c && c <= 'Z' {
            out.push((c as u8 + 32u8) as char);
        } else {
            out.push(c);
        }
        assert(lowered(s@).take(i + 1) =~= lowered(s@).take(i as int).push(lower(c)));
    }
    assert(lowered(s@).take(v@.len() as int) =~= lowered(s@));
    out
}

// ---------------------------------------------------------------------------------------------
// Trimming
// ---------------------------------------------------------------------------------------------

/// A class of characters.
pub enum Class {
    /// The characters with the `White_Space` property.
    White,
    /// One character.
    Only(char),
    /// The characters that are not alphanumeric.
    NotWord,
}

impl Class {
    /// Membership in the class.
    pub open spec fn has(self, c: char) -> bool {
        match self {
            Class::White => white_space(c),
            Class::Only(d) => c == d,
            Class::NotWord => !alphanumeric(c),
        }
    }

    /// Decides membership in the class.
    pub fn test(&self, c: char) -> (b: bool)
        ensures
            b == self.has(c),
    {
        match self {
            Class::White => c.is_whitespace(),
            Class::Only(d) => c == *d,
            Class::NotWord => !c.is_alphanumeric(),
        }
    }
}

/// `s` without the longest prefix of characters of the class.
pub open spec fn strip_front(s: Seq<char>, class: Class) -> Seq<char>
    decreases s.len(),
{
    if s.len() > 0 && class.has(s[0]) {
        strip_front(s.drop_first(), class)
    } else {
        s
    }
}

/// `s` without the longest suffix of characters of the class.
pub open spec fn strip_back(s: Seq<char>, class: Class) -> Seq<char>
    decreases s.len(),
{
    if s.len() > 0 && class.has(s.last()) {
        strip_back(s.drop_last(), class)
    } else {
        s
    }
}

/// `s` without the characters of the class at either end.
pub open spec fn strip(s: Seq<char>, class: Class) -> Seq<char> {
    strip_back(strip_front(s, class), class)
}

/// `s` without white space at either end.
pub open spec fn trimmed(s: Seq<char>) -> Seq<char> {
    strip(s, Class::White)
}

/// The index of the first character that `strip_front` keeps.
fn front(v: &[char], class: &Class) -> (i: usize)
    ensures
        i <= v@.len(),
        v@.skip(i as int) == strip_front(v@, *class),
{
    let mut i: usize = 0;
    assert(v@.skip(0) =~= v@);
    while i < v.len() && class.test(v[i])
        invariant
            i <= v@.len(),
            strip_front(v@.skip(i as int), *class) == strip_front(v@, *class),
        decreases v@.len() - i,
    {
        assert(v@.skip(i as int).drop_first() =~= v@.skip(i + 1));
        i = i + 1;
    }
    i
}

/// The end of the part of `v[from..]` that `strip_back` keeps.
fn back(v: &[char], from: usize, class: &Class) -> (j: usize)
    requires
        from <= v@.len(),
    ensures
        from <= j <= v@.len(),
        v@.subrange(from as int, j as int) == strip_back(v@.skip(from as int), *class),
{
    let mut j: usize = v.len();
    assert(v@.subrange(from as int, j as int) =~= v@.skip(from as int));
    while j > from && class.test(v[j - 1])
        invariant
            from <= j <= v@.len(),
            strip_back(v@.subrange(from as int, j as int), *class) == strip_back(
                v@.skip(from as int),
                *class,
            ),
        decreases j,
    {
        assert(v@.subrange(from as int, j as int).drop_last() =~= v@.subrange(
            from as int,
            j - 1,
        ));
        assert(v@.subrange(from as int, j as int).last() == v@[j - 1]);
        j = j - 1;
    }
    assert(j > from ==> v@.subrange(from as int, j as int).last() == v@[j - 1]);
    j
}

/// Removes the characters of the class from the front of a string.
pub fn strip_front_of<'a>(s: &'a str, class: &Class) -> (r: &'a str)
    ensures
        r@ == strip_front(s@, *class),
{
    let v = chars_of(s);
    let i = front(v.as_slice(), class);
    assert(v@.subrange(i as int, v@.len() as int) =~= v@.skip(i as int));
    s.substring_char(i, v.len())
}

/// Removes the characters of the class from both ends of a string.
pub fn strip_of<'a>(s: &'a str, class: &Class) -> (r: &'a str)
    ensures
        r@ == strip(s@, *class),
{
    let v = chars_of(s);
    let i = front(v.as_slice(), class);
    let j = back(v.as_slice(), i, class);
    s.substring_char(i, j)
}

/// Removes the white space at both ends of a string.
pub fn trim(s: &str) -> (r: &str)
    ensures
        r@ == trimmed(s@),
{
    strip_of(s, &Class::White)
}

/// What `strip_front` leaves does not begin with a character of the class.
pub proof fn lemma_strip_front(s: Seq<char>, class: Class)
    ensures
        strip_front(s, class).len() <= s.len(),
        strip_front(s, class) == s.skip(s.len() - strip_front(s, class).len()),
        strip_front(s, class).len() > 0 ==> !class.has(strip_front(s, class)[0]),
    decreases s.len(),
{
    if s.len() > 0 && class.has(s[0]) {
        lemma_strip_front(s.drop_first(), class);
        let t = strip_front(s.drop_first(), class);
        assert(s.drop_first().skip(s.drop_first().len() - t.len()) =~= s.skip(s.len() - t.len()));
    } else {
        assert(s.skip(0) =~= s);
    }
}

/// What `strip_back` leaves does not end with a character of the class.
pub proof fn lemma_strip_back(s: Seq<char>, class: Class)
    ensures
        strip_back(s, class).len() <= s.len(),
        strip_back(s, class) == s.take(strip_back(s, class).len() as int),
        strip_back(s, class).len() > 0 ==> !class.has(strip_back(s, class).last()),
    decreases s.len(),
{
    if s.len() > 0 && class.has(s.last()) {
        lemma_strip_back(s.drop_last(), class);
        let t = strip_back(s.drop_last(), class);
        assert(s.drop_last().take(t.len() as int) =~= s.take(t.len() as int));
    } else {
        assert(s.take(s.len() as int) =~= s);
    }
}

// ---------------------------------------------------------------------------------------------
// Splitting and joining
// ---------------------------------------------------------------------------------------------

/// The pieces of `current + rest` that the separators of `rest` part.
pub open spec fn pieces_from(current: Seq<char>, rest: Seq<char>, class: Class) -> Seq<Seq<char>>
    decreases rest.len(),
{
    if rest.len() == 0 {
        seq![current]
    } else if class.has(rest[0]) {
        seq![current] + pieces_from(Seq::empty(), rest.drop_first(), class)
    } else {
        pieces_from(current.push(rest[0]), rest.drop_first(), class)
    }
}

/// The pieces between separators, empty ones included.
pub open spec fn pieces(s: Seq<char>, class: Class) -> Seq<Seq<char>> {
    pieces_from(Seq::empty(), s, class)
}

/// The pieces of `current + rest` that hold something.
pub open spec fn words_from(current: Seq<char>, rest: Seq<char>, class: Class) -> Seq<Seq<char>>
    decreases rest.len(),
{
    if rest.len() == 0 {
        if current.len() > 0 {
            seq![current]
        } else {
            Seq::empty()
        }
    } else if class.has(rest[0]) {
        (if current.len() > 0 {
            seq![current]
        } else {
            Seq::empty()
        }) + words_from(Seq::empty(), rest.drop_first(), class)
    } else {
        words_from(current.push(rest[0]), rest.drop_first(), class)
    }
}

/// The pieces between separators, empty ones left out.
pub open spec fn words(s: Seq<char>, class: Class) -> Seq<Seq<char>> {
    words_from(Seq::empty(), s, class)
}

/// Splits a string at every character of the class.
pub fn split(s: &str, class: &Class) -> (r: Vec<String>)
    ensures
        views(r@) == pieces(s@, *class),
{
    let v = chars_of(s);
    let mut out: Vec<String> = Vec::new();
    let mut current = String::new();
    let mut i: usize = 0;
    assert(v@.skip(0) =~= v@);
    assert(views(out@) + pieces(s@, *class) =~= pieces(s@, *class));
    while i < v.len()
        invariant
            i <= v@.len(),
            views(out@) + pieces_from(current@, v@.skip(i as int), *class) == pieces(s@, *class),
        decreases v@.len() - i,
    {
        let ghost before = views(out@);
        let ghost held = current@;
        assert(v@.skip(i as int).drop_first() =~= v@.skip(i + 1));
        if class.test(v[i]) {
            out.push(current);
            current = String::new();
            assert(views(out@) =~= before.push(held));
            assert(before + (seq![held] + pieces_from(current@, v@.skip(i + 1), *class))
                =~= before.push(held) + pieces_from(current@, v@.skip(i + 1), *class));
        } else {
            current.push(v[i]);
        }
        i = i + 1;
    }
    let ghost before = views(out@);
    let ghost held = current@;
    out.push(current);
    assert(views(out@) =~= before + seq![held]);
    out
}

/// Splits a string at every character of the class and drops the empty pieces.
pub fn split_words(s: &str, class: &Class) -> (r: Vec<String>)
    ensures
        views(r@) == words(s@, *class),
{
    let v = chars_of(s);
    let mut out: Vec<String> = Vec::new();
    let mut current = String::new();
    let mut i: usize = 0;
    assert(v@.skip(0) =~= v@);
    assert(views(out@) + words(s@, *class) =~= words(s@, *class));
    while i < v.len()
        invariant
            i <= v@.len(),
            views(out@) + words_from(current@, v@.skip(i as int), *class) == words(s@, *class),
        decreases v@.len() - i,
    {
        let ghost before = views(out@);
        let ghost held = current@;
        assert(v@.skip(i as int).drop_first() =~= v@.skip(i + 1));
        if class.test(v[i]) {
            if !current.as_str().is_empty() {
                out.push(current);
                current = String::new();
                assert(views(out@) =~= before.push(held));
                assert(before + (seq![held] + words_from(current@, v@.skip(i + 1), *class))
                    =~= before.push(held) + words_from(current@, v@.skip(i + 1), *class));
            } else {
                assert(held =~= Seq::empty());
                assert(Seq::<Seq<char>>::empty() + words_from(held, v@.skip(i + 1), *class)
                    =~= words_from(held, v@.skip(i + 1), *class));
            }
        } else {
            current.push(v[i]);
        }
        i = i + 1;
    }
    let ghost before = views(out@);
    let ghost held = current@;
    if !current.as_str().is_empty() {
        out.push(current);
        assert(views(out@) =~= before + seq![held]);
    } else {
        assert(views(out@) =~= before + Seq::empty());
    }
    out
}

/// The parts with the separator between each two of them.
pub open spec fn joined(parts: Seq<Seq<char>>, separator: Seq<char>) -> Seq<char>
    decreases parts.len(),
{
    if parts.len() == 0 {
        Seq::empty()
    } else if parts.len() == 1 {
        parts[0]
    } else {
        joined(parts.drop_last(), separator) + separator + parts.last()
    }
}

/// Joins strings with a separator.
pub fn join(parts: &[String], separator: &str) -> (r: String)
    ensures
        r@ == joined(views(parts@), separator@),
{
    let mut out = String::new();
    for i in 0..parts.len()
        invariant
            out@ == joined(views(parts@).take(i as int), separator@),
    {
        let ghost taken = views(parts@).take(i + 1);
        assert(taken.drop_last() =~= views(parts@).take(i as int));
        assert(taken.last() == parts@[i as int]@);
        if i > 0 {
            out.append(separator);
            out.append(parts[i].as_str());
        } else {
            out.append(parts[i].as_str());
            assert(out@ =~= parts@[0]@);
        }
    }
    assert(views(parts@).take(parts@.len() as int) =~= views(parts@));
    out
}

// ---------------------------------------------------------------------------------------------
// Searching
// ---------------------------------------------------------------------------------------------

/// Whether `needle` stands in `s` at index `i`.
pub open spec fn occurs_at(s: Seq<char>, needle: Seq<char>, i: int) -> bool {
    &&& 0 <= i
    &&& i + needle.len() <= s.len()
    &&& s.subrange(i, i + needle.len()) == needle
}

/// The first index from `from` on at which `needle` stands in `s`.
pub open spec fn find_from(s: Seq<char>, needle: Seq<char>, from: int) -> Option<int>
    decreases s.len() - from + 1,
{
    if from < 0 || from + needle.len() > s.len() {
        None
    } else if occurs_at(s, needle, from) {
        Some(from)
    } else {
        find_from(s, needle, from + 1)
    }
}

/// Whether `needle` stands anywhere in `s`.
pub open spec fn contains(s: Seq<char>, needle: Seq<char>) -> bool {
    exists|i: int| #[trigger] occurs_at(s, needle, i)
}

/// Whether `s` begins with `prefix`.
pub open spec fn begins(s: Seq<char>, prefix: Seq<char>) -> bool {
    occurs_at(s, prefix, 0)
}

/// `find_from` finds the least occurrence, and only fails where there is none.
pub proof fn lemma_find_from(s: Seq<char>, needle: Seq<char>, from: int)
    requires
        0 <= from,
    ensures
        find_from(s, needle, from) matches Some(i) ==> {
            &&& from <= i
            &&& occurs_at(s, needle, i)
            &&& forall|j: int| from <= j < i ==> !#[trigger] occurs_at(s, needle, j)
        },
        find_from(s, needle, from) is None ==> forall|j: int|
            from <= j ==> !#[trigger] occurs_at(s, needle, j),
    decreases s.len() - from + 1,
{
    if from + needle.len() > s.len() {
    } else if occurs_at(s, needle, from) {
    } else {
        lemma_find_from(s, needle, from + 1);
        assert forall|j: int| from <= j && find_from(s, needle, from) is None implies
            !#[trigger] occurs_at(s, needle, j) by {
            if j > from {
                assert(from + 1 <= j);
            }
        }
    }
}

/// Decides whether `needle` stands in `s` at index `i`.
pub fn occurs(s: &[char], needle: &[char], i: usize) -> (b: bool)
    ensures
        b == occurs_at(s@, needle@, i as int),
{
    if needle.len() > s.len() || i > s.len() - needle.len() {
        return false;
    }
    let end: usize = s.len();
    for k in 0..needle.len()
        invariant
            i + needle@.len() <= end,
            end == s@.len(),
            forall|m: int| 0 <= m < k ==> s@[i + m] == #[trigger] needle@[m],
    {
        if s[i + k] != needle[k] {
            assert(s@.subrange(i as int, i + needle@.len())[k as int] == s@[i + k]);
            return false;
        }
    }
    assert(s@.subrange(i as int, i + needle@.len()) =~= needle@);
    true
}

/// Finds the first occurrence of `needle` in `s` from index `from` on.
pub fn find(s: &[char], needle: &[char], from: usize) -> (r: Option<usize>)
    ensures
        match r {
            Some(i) => find_from(s@, needle@, from as int) == Some(i as int),
            None => find_from(s@, needle@, from as int) is None,
        },
{
    let mut i: usize = from;
    while needle.len() <= s.len() && i <= s.len() - needle.len()
        invariant
            from <= i,
            find_from(s@, needle@, from as int) == find_from(s@, needle@, i as int),
        decreases s@.len() - i,
    {
        if occurs(s, needle, i) {
            return Some(i);
        }
        assert(i == s@.len() ==> s@.subrange(i as int, i + needle@.len()) =~= needle@);
        i = i + 1;
    }
    None
}

/// Decides whether `needle` stands anywhere in `s`.
pub fn has_substring(s: &str, needle: &str) -> (b: bool)
    ensures
        b == contains(s@, needle@),
{
    let v = chars_of(s);
    let n = chars_of(needle);
    let r = find(v.as_slice(), n.as_slice(), 0);
    proof {
        lemma_find_from(s@, needle@, 0);
        if r is None {
            assert forall|i: int| !#[trigger] occurs_at(s@, needle@, i) by {
                if i >= 0 {
                }
            }
        } else {
            assert(occurs_at(s@, needle@, r->0 as int));
        }
    }
    r.is_some()
}

/// The rest of `s` after `prefix`, where `s` begins with it.
pub fn after_prefix<'a>(s: &'a str, prefix: &str) -> (r: Option<&'a str>)
    ensures
        r matches Some(t) ==> begins(s@, prefix@) && t@ == s@.skip(prefix@.len() as int),
        r is None ==> !begins(s@, prefix@),
{
    let v = chars_of(s);
    let p = chars_of(prefix);
    if occurs(v.as_slice(), p.as_slice(), 0) {
        assert(s@.subrange(p@.len() as int, s@.len() as int) =~= s@.skip(p@.len() as int));
        Some(s.substring_char(p.len(), v.len()))
    } else {
        None
    }
}

// ---------------------------------------------------------------------------------------------
// Numbers
// ---------------------------------------------------------------------------------------------

/// The character of a decimal digit.
pub open spec fn digit(d: int) -> char {
    (d + '0' as int) as char
}

/// The decimal digits of a number, most significant first.
pub open spec fn decimal(n: nat) -> Seq<char>
    decreases n,
{
    if n < 10 {
        seq![digit(n as int)]
    } else {
        decimal(n / 10).push(digit((n % 10) as int))
    }
}

/// The decimal digits of a signed number, with a minus sign where it is negative.
pub open spec fn signed_decimal(n: int) -> Seq<char> {
    if n < 0 {
        seq!['-'] + decimal((-n) as nat)
    } else {
        decimal(n as nat)
    }
}

/// The character of a digit below ten.
fn digit_of(d: u64) -> (c: char)
    requires
        d < 10,
    ensures
        c == digit(d as int),
{
    (d as u8 + 48u8) as char
}

/// Writes a number in decimal.
pub fn decimal_of(n: u64) -> (r: String)
    ensures
        r@ == decimal(n as nat),
    decreases n,
{
    if n < 10 {
        let mut out = String::new();
        out.push(digit_of(n));
        assert(out@ =~= seq![digit(n as int)]);
        out
    } else {
        let mut out = decimal_of(n / 10);
        out.push(digit_of(n % 10));
        out
    }
}

/// Writes a signed number in decimal.
pub fn signed_decimal_of(n: i64) -> (r: String)
    ensures
        r@ == signed_decimal(n as int),
{
    if n < 0 {
        let magnitude: u64 = if n == i64::MIN {
            0x8000_0000_0000_0000
        } else {
            (-n) as u64
        };
        let mut out = String::new();
        out.push('-');
        out.append(decimal_of(magnitude).as_str());
        assert(out@ =~= seq!['-'] + decimal((-n) as nat));
        out
    } else {
        decimal_of(n as u64)
    }
}

/// Whether every character is an ASCII digit, and there is at least one.
pub open spec fn all_digits(s: Seq<char>) -> bool {
    s.len() > 0 && forall|i: int| 0 <= i < s.len() ==> '0' <= #[trigger] s[i] <= '9'
}

/// The number that a sequence of decimal digits writes.
pub open spec fn digits_value(s: Seq<char>) -> nat
    decreases s.len(),
{
    if s.len() == 0 {
        0
    } else {
        digits_value(s.drop_last()) * 10 + (s.last() as int - '0' as int) as nat
    }
}

/// Decimal digits write the number that they were written from.
pub proof fn lemma_decimal_value(n: nat)
    ensures
        digits_value(decimal(n)) == n,
        all_digits(decimal(n)),
    decreases n,
{
    if n < 10 {
        reveal_with_fuel(digits_value, 2);
        assert(decimal(n).drop_last() =~= Seq::empty());
    } else {
        lemma_decimal_value(n / 10);
        assert(decimal(n).drop_last() =~= decimal(n / 10));
    }
}

/// The number that a string writes in decimal, with an optional plus sign, where it fits `u64`.
pub open spec fn parsed_u64(s: Seq<char>) -> Option<u64> {
    let digits = if s.len() > 0 && s[0] == '+' {
        s.skip(1)
    } else {
        s
    };
    if all_digits(digits) && digits_value(digits) <= u64::MAX {
        Some(digits_value(digits) as u64)
    } else {
        None
    }
}

/// A longer row of digits never writes a smaller number.
proof fn lemma_digits_grow(s: Seq<char>, i: int)
    requires
        0 <= i <= s.len(),
    ensures
        digits_value(s.take(i)) <= digits_value(s),
    decreases s.len(),
{
    if i < s.len() {
        lemma_digits_grow(s.drop_last(), i);
        assert(s.drop_last().take(i) =~= s.take(i));
    } else {
        assert(s.take(i) =~= s);
    }
}

/// Reads a decimal number as `str::parse::<u64>` does.
pub fn parse_u64(s: &str) -> (r: Option<u64>)
    ensures
        r == parsed_u64(s@),
{
    let v = chars_of(s);
    let start: usize = if v.len() > 0 && v[0] == '+' {
        1
    } else {
        0
    };
    let ghost digits = v@.skip(start as int);
    assert(start == 0 ==> digits =~= v@);
    if start == v.len() {
        return None;
    }
    let mut value: u64 = 0;
    let mut i: usize = start;
    assert(digits.take(0) =~= Seq::empty());
    while i < v.len()
        invariant
            start <= i <= v@.len(),
            v@ == s@,
            start == (if s@.len() > 0 && s@[0] == '+' {
                1int
            } else {
                0int
            }),
            start == 0 ==> digits == s@,
            digits == v@.skip(start as int),
            forall|k: int| 0 <= k < i - start ==> '0' <= #[trigger] digits[k] <= '9',
            value == digits_value(digits.take(i - start)),
        decreases v@.len() - i,
    {
        let c = v[i];
        assert(digits[i - start] == c);
        assert(digits.take(i + 1 - start).drop_last() =~= digits.take(i - start));
        if !('0' <= c && c <= '9') {
            return None;
        }
        let d: u64 = (c as u32 - '0' as u32) as u64;
        proof {
            lemma_digits_grow(digits, i + 1 - start);
        }
        if value > (u64::MAX - d) / 10 {
            return None;
        }
        value = value * 10 + d;
        i = i + 1;
    }
    assert(digits.take(digits.len() as int) =~= digits);
    Some(value)
}

// ---------------------------------------------------------------------------------------------
// Byte lengths
// ---------------------------------------------------------------------------------------------

/// The number of bytes that a string takes in UTF-8.
pub open spec fn byte_len(s: Seq<char>) -> nat {
    encode_utf8(s).len()
}

/// The number of bytes that a character takes in UTF-8.
pub open spec fn width(c: char) -> nat {
    encode_scalar(c as u32).len()
}

/// Byte lengths add up.
pub proof fn lemma_byte_len_push(s: Seq<char>, c: char)
    ensures
        byte_len(s.push(c)) == byte_len(s) + width(c),
    decreases s.len(),
{
    if s.len() == 0 {
        assert(s.push(c).drop_first() =~= Seq::empty());
        assert(encode_utf8(Seq::<char>::empty()) =~= Seq::empty());
    } else {
        lemma_byte_len_push(s.drop_first(), c);
        assert(s.push(c).drop_first() =~= s.drop_first().push(c));
    }
}

/// Byte lengths add up over concatenation.
pub proof fn lemma_byte_len_add(a: Seq<char>, b: Seq<char>)
    ensures
        byte_len(a + b) == byte_len(a) + byte_len(b),
    decreases b.len(),
{
    if b.len() == 0 {
        assert(a + b =~= a);
        assert(encode_utf8(b) =~= Seq::empty());
    } else {
        lemma_byte_len_add(a, b.drop_last());
        assert((a + b.drop_last()).push(b.last()) =~= a + b);
        assert(b.drop_last().push(b.last()) =~= b);
        lemma_byte_len_push(a + b.drop_last(), b.last());
        lemma_byte_len_push(b.drop_last(), b.last());
    }
}

/// The number of bytes that a character takes in UTF-8.
pub fn width_of(c: char) -> (n: usize)
    ensures
        n == width(c),
        1 <= n <= 4,
{
    let u = c as u32;
    if u < 0x80 {
        1
    } else if u < 0x800 {
        2
    } else if u < 0x10000 {
        3
    } else {
        4
    }
}

// ---------------------------------------------------------------------------------------------
// Laws
// ---------------------------------------------------------------------------------------------

/// Whether `s` ends with `suffix`.
pub open spec fn ends(s: Seq<char>, suffix: Seq<char>) -> bool {
    suffix.len() <= s.len() && s.skip(s.len() - suffix.len()) == suffix
}

/// What a text is put together from stands in it, the first part at its beginning and the last at its
/// end.
pub proof fn lemma_parts(a: Seq<char>, m: Seq<char>, b: Seq<char>)
    ensures
        begins(a + m + b, a),
        contains(a + m + b, m),
        ends(a + m + b, b),
        begins(a + m, a),
        ends(a + m, m),
        contains(a + m, m),
        contains(a + m, a),
{
    let s = a + m + b;
    assert(s.subrange(0, a.len() as int) =~= a);
    assert(s.subrange(a.len() as int, (a.len() + m.len()) as int) =~= m);
    assert(occurs_at(s, m, a.len() as int));
    assert(s.skip(s.len() - b.len()) =~= b);
    assert((a + m).subrange(0, a.len() as int) =~= a);
    assert((a + m).skip((a + m).len() - m.len()) =~= m);
    assert((a + m).subrange(a.len() as int, (a.len() + m.len()) as int) =~= m);
    assert(occurs_at(a + m, m, a.len() as int));
    assert(occurs_at(a + m, a, 0));
}

/// What stands in a part of a text stands in the text.
pub proof fn lemma_contains_within(a: Seq<char>, m: Seq<char>, b: Seq<char>, needle: Seq<char>)
    requires
        contains(m, needle),
    ensures
        contains(a + m + b, needle),
        contains(a + m, needle),
        contains(m + b, needle),
{
    let i = choose|i: int| #[trigger] occurs_at(m, needle, i);
    let s = a + m + b;
    assert(s.subrange(a.len() + i, a.len() + i + needle.len()) =~= m.subrange(
        i,
        i + needle.len(),
    ));
    assert(occurs_at(s, needle, a.len() + i));
    assert((a + m).subrange(a.len() + i, a.len() + i + needle.len()) =~= m.subrange(
        i,
        i + needle.len(),
    ));
    assert(occurs_at(a + m, needle, a.len() + i));
    assert((m + b).subrange(i, i + needle.len()) =~= m.subrange(i, i + needle.len()));
    assert(occurs_at(m + b, needle, i));
}

/// What is added to a text stands at its end, and what it was added to at its beginning.
pub proof fn lemma_added(s: Seq<char>, more: Seq<char>)
    ensures
        begins(s + more, s),
        contains(s + more, s),
        ends(s + more, more),
        contains(s + more, more),
{
    lemma_parts(s, more, Seq::empty());
}

/// A text that grows keeps its beginning and what stands in it.
pub proof fn lemma_grow(s: Seq<char>, more: Seq<char>, part: Seq<char>)
    ensures
        contains(s, part) ==> contains(s + more, part),
        begins(s, part) ==> begins(s + more, part),
        begins(s, part) ==> contains(s, part),
{
    if contains(s, part) {
        lemma_contains_within(Seq::empty(), s, more, part);
    }
    if begins(s, part) {
        assert((s + more).subrange(0, part.len() as int) =~= s.subrange(0, part.len() as int));
        assert(occurs_at(s, part, 0));
    }
}

/// Texts can be put together in any grouping.
pub proof fn lemma_grouped(a: Seq<char>, b: Seq<char>, c: Seq<char>)
    ensures
        a + b + c == a + (b + c),
{
    assert(a + b + c =~= a + (b + c));
}

/// What is joined is the parts, one after the other, with a separator wherever two of them meet: one
/// part is joined to itself, and two lists that hold anything are joined as each of them is, with
/// one separator between.
pub proof fn law_joining_goes_part_by_part(
    a: Seq<Seq<char>>,
    b: Seq<Seq<char>>,
    separator: Seq<char>,
    part: Seq<char>,
)
    requires
        a.len() > 0,
        b.len() > 0,
    ensures
        joined(seq![part], separator) == part,
        joined(Seq::<Seq<char>>::empty(), separator) == Seq::<char>::empty(),
        joined(a + b, separator) == joined(a, separator) + separator + joined(b, separator),
    decreases b.len(),
{
    if b.len() == 1 {
        assert((a + b).drop_last() =~= a);
        assert((a + b).last() == b[0]);
    } else {
        law_joining_goes_part_by_part(a, b.drop_last(), separator, part);
        assert((a + b).drop_last() =~= a + b.drop_last());
        assert((a + b).last() == b.last());
        assert(joined(a + b, separator) =~= joined(a, separator) + separator + joined(
            b,
            separator,
        ));
    }
}

/// Every part stands in what is joined.
pub proof fn lemma_joined_holds(parts: Seq<Seq<char>>, separator: Seq<char>, i: int)
    requires
        0 <= i < parts.len(),
    ensures
        contains(joined(parts, separator), parts[i]),
    decreases parts.len(),
{
    let last = parts.last();
    if parts.len() == 1 {
        assert(parts[i].subrange(0, parts[i].len() as int) =~= parts[i]);
        assert(occurs_at(parts[i], parts[i], 0));
    } else {
        let earlier = joined(parts.drop_last(), separator);
        lemma_parts(earlier + separator, last, Seq::empty());
        if i < parts.len() - 1 {
            lemma_joined_holds(parts.drop_last(), separator, i);
            assert(parts.drop_last()[i] == parts[i]);
            lemma_contains_within(Seq::empty(), earlier, separator + last, parts[i]);
            assert(earlier + separator + last =~= earlier + (separator + last));
        }
    }
}

/// A text that is cut at a character gives pieces without it which, joined by it, are the text.
pub proof fn law_pieces_join_again(s: Seq<char>, c: char)
    ensures
        joined(pieces(s, Class::Only(c)), seq![c]) == s,
        forall|i: int, j: int|
            0 <= i < pieces(s, Class::Only(c)).len() && 0 <= j < pieces(s, Class::Only(c))[i].len()
                ==> #[trigger] pieces(s, Class::Only(c))[i][j] != c,
{
    lemma_pieces_join(Seq::empty(), s, c);
    assert(Seq::<char>::empty() + s =~= s);
}

proof fn lemma_pieces_join(current: Seq<char>, rest: Seq<char>, c: char)
    requires
        forall|j: int| 0 <= j < current.len() ==> #[trigger] current[j] != c,
    ensures
        pieces_from(current, rest, Class::Only(c)).len() > 0,
        joined(pieces_from(current, rest, Class::Only(c)), seq![c]) == current + rest,
        forall|i: int, j: int|
            0 <= i < pieces_from(current, rest, Class::Only(c)).len() && 0 <= j < pieces_from(
                current,
                rest,
                Class::Only(c),
            )[i].len() ==> #[trigger] pieces_from(current, rest, Class::Only(c))[i][j] != c,
    decreases rest.len(),
{
    let all = pieces_from(current, rest, Class::Only(c));
    if rest.len() == 0 {
        assert(current + rest =~= current);
        assert(all =~= seq![current]);
    } else if rest[0] == c {
        let others = pieces_from(Seq::empty(), rest.drop_first(), Class::Only(c));
        lemma_pieces_join(Seq::empty(), rest.drop_first(), c);
        law_joining_goes_part_by_part(seq![current], others, seq![c], current);
        assert(all =~= seq![current] + others);
        assert(current + seq![c] + (Seq::<char>::empty() + rest.drop_first()) =~= current + rest);
        assert forall|i: int, j: int| 0 <= i < all.len() && 0 <= j < all[i].len() implies
            #[trigger] all[i][j] != c by {
            if i > 0 {
                assert(all[i] == others[i - 1]);
            }
        }
    } else {
        lemma_pieces_join(current.push(rest[0]), rest.drop_first(), c);
        assert(current.push(rest[0]) + rest.drop_first() =~= current + rest);
    }
}

/// A separator parts the pieces before it from those behind it.
pub proof fn law_a_separator_parts_the_pieces(a: Seq<char>, separator: char, b: Seq<char>, class: Class)
    requires
        class.has(separator),
    ensures
        pieces(a + seq![separator] + b, class) == pieces(a, class) + pieces(b, class),
{
    lemma_pieces_apart(Seq::empty(), a, separator, b, class);
}

proof fn lemma_pieces_apart(
    current: Seq<char>,
    a: Seq<char>,
    separator: char,
    b: Seq<char>,
    class: Class,
)
    requires
        class.has(separator),
    ensures
        pieces_from(current, a + seq![separator] + b, class) == pieces_from(current, a, class)
            + pieces(b, class),
    decreases a.len(),
{
    let s = a + seq![separator] + b;
    if a.len() == 0 {
        assert(s.drop_first() =~= b);
    } else {
        assert(s.drop_first() =~= a.drop_first() + seq![separator] + b);
        if class.has(a[0]) {
            lemma_pieces_apart(Seq::empty(), a.drop_first(), separator, b, class);
            assert(pieces_from(current, s, class) =~= pieces_from(current, a, class) + pieces(
                b,
                class,
            ));
        } else {
            lemma_pieces_apart(current.push(a[0]), a.drop_first(), separator, b, class);
        }
    }
}

/// A text without separators is one piece.
pub proof fn lemma_one_piece(s: Seq<char>, class: Class)
    requires
        forall|i: int| 0 <= i < s.len() ==> !class.has(#[trigger] s[i]),
    ensures
        pieces(s, class) == seq![s],
{
    lemma_one_piece_from(Seq::empty(), s, class);
    assert(Seq::<char>::empty() + s =~= s);
}

proof fn lemma_one_piece_from(current: Seq<char>, rest: Seq<char>, class: Class)
    requires
        forall|i: int| 0 <= i < rest.len() ==> !class.has(#[trigger] rest[i]),
    ensures
        pieces_from(current, rest, class) == seq![current + rest],
    decreases rest.len(),
{
    if rest.len() == 0 {
        assert(current + rest =~= current);
    } else {
        assert forall|i: int| 0 <= i < rest.drop_first().len() implies !class.has(
            #[trigger] rest.drop_first()[i],
        ) by {
            assert(rest.drop_first()[i] == rest[i + 1]);
        }
        lemma_one_piece_from(current.push(rest[0]), rest.drop_first(), class);
        assert(current.push(rest[0]) + rest.drop_first() =~= current + rest);
    }
}

/// What stands behind one another in a list of texts, without anything between.
pub open spec fn run_together(parts: Seq<Seq<char>>) -> Seq<char>
    decreases parts.len(),
{
    if parts.len() == 0 {
        Seq::empty()
    } else {
        parts[0] + run_together(parts.drop_first())
    }
}

/// The characters of a text that are not of a class, in their order.
pub open spec fn without(s: Seq<char>, class: Class) -> Seq<char>
    decreases s.len(),
{
    if s.len() == 0 {
        Seq::empty()
    } else if class.has(s[0]) {
        without(s.drop_first(), class)
    } else {
        seq![s[0]] + without(s.drop_first(), class)
    }
}

/// The words of a text are never empty and hold no separator, and together they are all that the text
/// holds besides separators, in its order.
pub proof fn law_words_are_what_separators_leave(s: Seq<char>, class: Class)
    ensures
        run_together(words(s, class)) == without(s, class),
        forall|i: int| 0 <= i < words(s, class).len() ==> (#[trigger] words(s, class)[i]).len() > 0,
        forall|i: int, j: int|
            0 <= i < words(s, class).len() && 0 <= j < words(s, class)[i].len() ==> !class.has(
                #[trigger] words(s, class)[i][j],
            ),
{
    lemma_words_together(Seq::empty(), s, class);
    assert(Seq::<char>::empty() + without(s, class) =~= without(s, class));
}

proof fn lemma_words_together(current: Seq<char>, rest: Seq<char>, class: Class)
    requires
        forall|j: int| 0 <= j < current.len() ==> !class.has(#[trigger] current[j]),
    ensures
        run_together(words_from(current, rest, class)) == current + without(rest, class),
        forall|i: int|
            0 <= i < words_from(current, rest, class).len() ==> (#[trigger] words_from(
                current,
                rest,
                class,
            )[i]).len() > 0,
        forall|i: int, j: int|
            0 <= i < words_from(current, rest, class).len() && 0 <= j < words_from(
                current,
                rest,
                class,
            )[i].len() ==> !class.has(#[trigger] words_from(current, rest, class)[i][j]),
    decreases rest.len(),
{
    let all = words_from(current, rest, class);
    if rest.len() == 0 {
        assert(current + without(rest, class) =~= current);
        if current.len() > 0 {
            assert(all =~= seq![current]);
            assert(all.drop_first() =~= Seq::empty());
            assert(run_together(all.drop_first()) =~= Seq::empty());
            assert(run_together(all) =~= current);
        } else {
            assert(run_together(all) =~= current);
        }
    } else if class.has(rest[0]) {
        let others = words_from(Seq::empty(), rest.drop_first(), class);
        lemma_words_together(Seq::empty(), rest.drop_first(), class);
        assert(Seq::<char>::empty() + without(rest.drop_first(), class) =~= without(
            rest.drop_first(),
            class,
        ));
        if current.len() > 0 {
            assert(all =~= seq![current] + others);
            assert(all.drop_first() =~= others);
            assert(run_together(all) =~= current + without(rest, class));
            assert forall|i: int| 0 <= i < all.len() implies (#[trigger] all[i]).len() > 0 by {
                if i > 0 {
                    assert(all[i] == others[i - 1]);
                }
            }
            assert forall|i: int, j: int| 0 <= i < all.len() && 0 <= j < all[i].len() implies
                !class.has(#[trigger] all[i][j]) by {
                if i > 0 {
                    assert(all[i] == others[i - 1]);
                }
            }
        } else {
            assert(all =~= others);
            assert(current + without(rest, class) =~= without(rest, class));
        }
    } else {
        lemma_words_together(current.push(rest[0]), rest.drop_first(), class);
        assert(current.push(rest[0]) + without(rest.drop_first(), class) =~= current + without(
            rest,
            class,
        ));
    }
}

/// What trimming leaves has no white space at either end, and all that it takes away is white space
/// before it and behind it.
pub proof fn law_trimming_takes_only_white_space(s: Seq<char>)
    ensures
        trimmed(s).len() > 0 ==> !white_space(trimmed(s)[0]) && !white_space(trimmed(s).last()),
        exists|front: Seq<char>, back: Seq<char>|
            s == #[trigger] (front + trimmed(s) + back) && (forall|i: int|
                0 <= i < front.len() ==> white_space(#[trigger] front[i])) && (forall|i: int|
                0 <= i < back.len() ==> white_space(#[trigger] back[i])),
{
    let t = strip_front(s, Class::White);
    let m = trimmed(s);
    lemma_strip_front(s, Class::White);
    lemma_strip_back(t, Class::White);
    lemma_stripped_front(s, Class::White);
    lemma_stripped_back(t, Class::White);
    let front = s.take(s.len() - t.len());
    let back = t.skip(m.len() as int);
    assert(t =~= m + back);
    assert(s =~= front + t);
    assert(s =~= front + m + back);
    if m.len() > 0 {
        assert(m[0] == t[0]);
    }
}

proof fn lemma_stripped_front(s: Seq<char>, class: Class)
    ensures
        strip_front(s, class).len() <= s.len(),
        forall|i: int|
            0 <= i < s.len() - strip_front(s, class).len() ==> class.has(#[trigger] s[i]),
    decreases s.len(),
{
    if s.len() > 0 && class.has(s[0]) {
        let t = s.drop_first();
        lemma_stripped_front(t, class);
        assert forall|i: int| 0 <= i < s.len() - strip_front(s, class).len() implies class.has(
            #[trigger] s[i],
        ) by {
            if i > 0 {
                assert(t[i - 1] == s[i]);
            }
        }
    }
}

proof fn lemma_stripped_back(s: Seq<char>, class: Class)
    ensures
        strip_back(s, class).len() <= s.len(),
        forall|i: int| strip_back(s, class).len() <= i < s.len() ==> class.has(#[trigger] s[i]),
    decreases s.len(),
{
    if s.len() > 0 && class.has(s.last()) {
        let t = s.drop_last();
        lemma_stripped_back(t, class);
        assert forall|i: int| strip_back(s, class).len() <= i < s.len() implies class.has(
            #[trigger] s[i],
        ) by {
            if i < t.len() {
                assert(t[i] == s[i]);
            }
        }
    }
}

/// A text with something other than white space at both ends is trimmed already.
pub proof fn lemma_trimmed_already(s: Seq<char>)
    requires
        s.len() > 0,
        !white_space(s[0]),
        !white_space(s.last()),
    ensures
        trimmed(s) == s,
{
    reveal_with_fuel(strip_front, 1);
    reveal_with_fuel(strip_back, 1);
}

/// A number that is written in decimal is read back, so different numbers are written differently.
pub proof fn law_a_written_number_is_read_back(n: u64)
    ensures
        parsed_u64(decimal(n as nat)) == Some(n),
        n > 0 ==> decimal(n as nat)[0] != '0',
{
    lemma_decimal_value(n as nat);
    lemma_first_digit(n as nat);
}

proof fn lemma_first_digit(n: nat)
    ensures
        decimal(n).len() > 0,
        n > 0 ==> decimal(n)[0] != '0',
    decreases n,
{
    if n >= 10 {
        lemma_first_digit(n / 10);
        assert(decimal(n)[0] == decimal(n / 10)[0]);
    }
}

/// In lower case a text keeps its length and everything but the letters from A to Z, each of which
/// becomes the letter thirty-two places on.
pub proof fn law_lower_case_changes_capitals_only(s: Seq<char>, i: int)
    requires
        0 <= i < s.len(),
    ensures
        lowered(s).len() == s.len(),
        'A' <= s[i] <= 'Z' ==> lowered(s)[i] as u32 == s[i] as u32 + 32,
        !('A' <= s[i] <= 'Z') ==> lowered(s)[i] == s[i],
{
}

} // verus!
