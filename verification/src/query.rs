//! The query syntax that the memory and the message archive share.
//!
//! A quoted part is a requirement; the words outside quotes describe the subject.
use vstd::prelude::*;
use vstd::string::StringExecFns;

use crate::text::{
    chars_of, join, joined, lowercase, pieces, pieces_from, split, split_words, to_lowercase, trim,
    trimmed, views, words, words_from, Class,
};

verus! {

/// One term of a query.
#[derive(Debug, Clone, PartialEq, Eq)]
pub struct Term {
    pub text: String,
    pub exact: bool,
}

/// What a term holds.
#[verifier::ext_equal]
pub struct TermView {
    pub text: Seq<char>,
    pub exact: bool,
}

impl View for Term {
    type V = TermView;

    open spec fn view(&self) -> TermView {
        TermView { text: self.text@, exact: self.exact }
    }
}

/// What the terms of a list hold.
pub open spec fn term_views(terms: Seq<Term>) -> Seq<TermView> {
    Seq::new(terms.len(), |i: int| terms[i]@)
}

/// What the terms behind a list of references hold.
pub open spec fn term_ref_views(terms: Seq<&Term>) -> Seq<TermView> {
    Seq::new(terms.len(), |i: int| terms[i]@)
}

/// The parts of a query between quotes: those at even places stand outside quotes, those at odd
/// places inside. A quote that is never closed runs to the end.
pub open spec fn quote_parts(query: Seq<char>) -> Seq<Seq<char>> {
    pieces(query, Class::Only('"'))
}

/// The loose terms that words give: in lowercase, and at least three characters long.
pub open spec fn loose_terms(ws: Seq<Seq<char>>) -> Seq<TermView>
    decreases ws.len(),
{
    if ws.len() == 0 {
        Seq::empty()
    } else {
        let earlier = loose_terms(ws.drop_last());
        let text = lowercase(ws.last());
        if long_enough(text, false) {
            earlier.push(TermView { text, exact: false })
        } else {
            earlier
        }
    }
}

/// The exact term that a quoted part gives: trimmed, in lowercase, and not empty.
pub open spec fn exact_terms(part: Seq<char>) -> Seq<TermView> {
    let text = lowercase(trimmed(part));
    if long_enough(text, true) {
        seq![TermView { text, exact: true }]
    } else {
        Seq::empty()
    }
}

/// The terms of a list of parts that alternate between outside and inside quotes.
pub open spec fn terms_of(parts: Seq<Seq<char>>) -> Seq<TermView>
    decreases parts.len(),
{
    if parts.len() == 0 {
        Seq::empty()
    } else {
        terms_of(parts.drop_last()) + if parts.len() % 2 == 1 {
            loose_terms(words(parts.last(), Class::NotWord))
        } else {
            exact_terms(parts.last())
        }
    }
}

/// The terms of a query, in the order in which they stand in it.
pub open spec fn terms(query: Seq<char>) -> Seq<TermView> {
    terms_of(quote_parts(query))
}

/// Whether a text in lowercase is long enough for a term: one character in quotes, three outside.
pub open spec fn long_enough(text: Seq<char>, exact: bool) -> bool {
    text.len() >= (if exact {
        1int
    } else {
        3int
    })
}

/// The term of a text that was put in lowercase, where it is long enough for one.
pub fn term_of(lowered: String, exact: bool) -> (r: Option<Term>)
    ensures
        match r {
            Some(term) => long_enough(lowered@, exact) && term@ == (TermView {
                text: lowered@,
                exact,
            }),
            None => !long_enough(lowered@, exact),
        },
{
    let floor: usize = if exact {
        1
    } else {
        3
    };
    if lowered.as_str().unicode_len() >= floor {
        Some(Term { text: lowered, exact })
    } else {
        None
    }
}

/// The loose terms of one part outside quotes.
fn loose_terms_in(part: &str) -> (r: Vec<Term>)
    ensures
        term_views(r@) == loose_terms(words(part@, Class::NotWord)),
{
    let ws = split_words(part, &Class::NotWord);
    let mut out: Vec<Term> = Vec::new();
    assert(views(ws@).take(0) =~= Seq::empty());
    for i in 0..ws.len()
        invariant
            term_views(out@) == loose_terms(views(ws@).take(i as int)),
    {
        let ghost taken = views(ws@).take(i + 1);
        assert(taken.drop_last() =~= views(ws@).take(i as int));
        assert(taken.last() == ws@[i as int]@);
        let ghost before = term_views(out@);
        match term_of(to_lowercase(ws[i].as_str()), false) {
            Some(term) => {
                out.push(term);
                assert(term_views(out@) =~= before.push(term@));
            },
            None => {},
        }
    }
    assert(views(ws@).take(ws@.len() as int) =~= views(ws@));
    out
}

/// Reads a query.
pub fn parse(query: &str) -> (r: Vec<Term>)
    ensures
        term_views(r@) == terms(query@),
{
    let parts = split(query, &Class::Only('"'));
    let mut out: Vec<Term> = Vec::new();
    assert(views(parts@).take(0) =~= Seq::empty());
    for i in 0..parts.len()
        invariant
            term_views(out@) == terms_of(views(parts@).take(i as int)),
    {
        let ghost taken = views(parts@).take(i + 1);
        assert(taken.drop_last() =~= views(parts@).take(i as int));
        assert(taken.last() == parts@[i as int]@);
        let ghost before = term_views(out@);
        if i % 2 == 0 {
            let mut found = loose_terms_in(parts[i].as_str());
            let ghost added = found@;
            out.append(&mut found);
            assert(term_views(out@) =~= before + term_views(added));
        } else {
            match term_of(to_lowercase(trim(parts[i].as_str())), true) {
                Some(term) => {
                    out.push(term);
                    assert(term_views(out@) =~= before.push(term@));
                },
                None => {},
            }
            assert(term_views(out@) =~= before + exact_terms(parts@[i as int]@));
        }
    }
    assert(views(parts@).take(parts@.len() as int) =~= views(parts@));
    out
}

/// The parts outside quotes, one after another.
pub open spec fn unquoted(parts: Seq<Seq<char>>) -> Seq<char>
    decreases parts.len(),
{
    if parts.len() == 0 {
        Seq::empty()
    } else if parts.len() % 2 == 1 {
        unquoted(parts.drop_last()) + parts.last()
    } else {
        unquoted(parts.drop_last())
    }
}

/// The words outside quotes, one space apart.
pub open spec fn loose(query: Seq<char>) -> Seq<char> {
    joined(words(unquoted(quote_parts(query)), Class::White), seq![' '])
}

/// The text of a query that stands outside quotes, with its white space evened out.
pub fn loose_text(query: &str) -> (r: String)
    ensures
        r@ == loose(query@),
{
    let parts = split(query, &Class::Only('"'));
    let mut out = String::new();
    assert(views(parts@).take(0) =~= Seq::empty());
    for i in 0..parts.len()
        invariant
            out@ == unquoted(views(parts@).take(i as int)),
    {
        let ghost taken = views(parts@).take(i + 1);
        assert(taken.drop_last() =~= views(parts@).take(i as int));
        assert(taken.last() == parts@[i as int]@);
        if i % 2 == 0 {
            out.append(parts[i].as_str());
        }
    }
    assert(views(parts@).take(parts@.len() as int) =~= views(parts@));
    let ws = split_words(out.as_str(), &Class::White);
    proof {
        reveal_strlit(" ");
        assert(" "@ =~= seq![' ']);
    }
    join(ws.as_slice(), " ")
}

/// A term with every double quote doubled.
pub open spec fn escaped(s: Seq<char>) -> Seq<char>
    decreases s.len(),
{
    if s.len() == 0 {
        Seq::empty()
    } else if s.last() == '"' {
        escaped(s.drop_last()).push('"').push('"')
    } else {
        escaped(s.drop_last()).push(s.last())
    }
}

/// Doubles every double quote of a term, as a quoted string of the full-text index wants it.
pub fn escape(term: &str) -> (r: String)
    ensures
        r@ == escaped(term@),
{
    let v = chars_of(term);
    let mut out = String::new();
    assert(v@.take(0) =~= Seq::empty());
    for i in 0..v.len()
        invariant
            out@ == escaped(v@.take(i as int)),
    {
        assert(v@.take(i + 1).drop_last() =~= v@.take(i as int));
        if v[i] == '"' {
            out.push('"');
        }
        out.push(v[i]);
    }
    assert(v@.take(v@.len() as int) =~= v@);
    out
}

/// A term as a quoted string of the full-text index.
pub open spec fn quoted(s: Seq<char>) -> Seq<char> {
    seq!['"'] + escaped(s) + seq!['"']
}

/// Writes a term as a quoted string of the full-text index.
pub fn quote(term: &str) -> (r: String)
    ensures
        r@ == quoted(term@),
{
    let mut out = String::new();
    out.push('"');
    out.append(escape(term).as_str());
    out.push('"');
    assert(out@ =~= quoted(term@));
    out
}

/// The quoted strings of a list of terms.
pub open spec fn quoted_all(ts: Seq<TermView>) -> Seq<Seq<char>> {
    Seq::new(ts.len(), |i: int| quoted(ts[i].text))
}

/// The full-text expression that asks for every term.
pub open spec fn required(ts: Seq<TermView>) -> Seq<char> {
    joined(quoted_all(ts), " AND "@)
}

/// Writes the full-text expression that asks for every one of the given terms.
pub fn required_expr(exact: &[&Term]) -> (r: String)
    ensures
        r@ == required(term_ref_views(exact@)),
{
    let mut parts: Vec<String> = Vec::new();
    for i in 0..exact.len()
        invariant
            views(parts@) == quoted_all(term_ref_views(exact@)).take(i as int),
    {
        let ghost before = views(parts@);
        let part = quote(exact[i].text.as_str());
        parts.push(part);
        assert(views(parts@) =~= before.push(part@));
        assert(quoted_all(term_ref_views(exact@)).take(i + 1) =~= before.push(part@));
    }
    assert(views(parts@) =~= quoted_all(term_ref_views(exact@)));
    join(parts.as_slice(), " AND ")
}

// ---------------------------------------------------------------------------------------------
// Laws
// ---------------------------------------------------------------------------------------------

/// Loose terms are at least three characters long.
proof fn lemma_loose_terms(ws: Seq<Seq<char>>)
    ensures
        forall|i: int|
            0 <= i < loose_terms(ws).len() ==> !(#[trigger] loose_terms(ws)[i]).exact
                && loose_terms(ws)[i].text.len() >= 3,
    decreases ws.len(),
{
    if ws.len() > 0 {
        let earlier = loose_terms(ws.drop_last());
        lemma_loose_terms(ws.drop_last());
        assert forall|i: int| 0 <= i < loose_terms(ws).len() implies !(#[trigger] loose_terms(
            ws,
        )[i]).exact && loose_terms(ws)[i].text.len() >= 3 by {
            if i < earlier.len() {
                assert(loose_terms(ws)[i] == earlier[i]);
            }
        }
    }
}

proof fn lemma_terms_of(parts: Seq<Seq<char>>)
    ensures
        forall|i: int|
            0 <= i < terms_of(parts).len() ==> (#[trigger] terms_of(parts)[i]).text.len() >= (
            if terms_of(parts)[i].exact {
                1int
            } else {
                3int
            }),
    decreases parts.len(),
{
    if parts.len() > 0 {
        let earlier = terms_of(parts.drop_last());
        let added = if parts.len() % 2 == 1 {
            loose_terms(words(parts.last(), Class::NotWord))
        } else {
            exact_terms(parts.last())
        };
        lemma_terms_of(parts.drop_last());
        lemma_loose_terms(words(parts.last(), Class::NotWord));
        assert forall|i: int| 0 <= i < terms_of(parts).len() implies (#[trigger] terms_of(
            parts,
        )[i]).text.len() >= (if terms_of(parts)[i].exact {
            1int
        } else {
            3int
        }) by {
            if i < earlier.len() {
                assert(terms_of(parts)[i] == earlier[i]);
            } else {
                assert(terms_of(parts)[i] == added[i - earlier.len()]);
            }
        }
    }
}

/// No term is empty, and no loose term is shorter than three characters.
pub proof fn law_terms_are_long_enough(query: Seq<char>)
    ensures
        forall|i: int|
            0 <= i < terms(query).len() ==> (#[trigger] terms(query)[i]).text.len() >= (if terms(
                query,
            )[i].exact {
                1int
            } else {
                3int
            }),
{
    lemma_terms_of(quote_parts(query));
}

proof fn lemma_no_separator(current: Seq<char>, rest: Seq<char>, class: Class)
    requires
        forall|i: int| 0 <= i < rest.len() ==> !class.has(#[trigger] rest[i]),
    ensures
        pieces_from(current, rest, class) == seq![current + rest],
    decreases rest.len(),
{
    if rest.len() == 0 {
        assert(current + rest =~= current);
    } else {
        assert forall|i: int| 0 <= i < rest.drop_first().len() implies !class.has(
            #[trigger] rest.drop_first()[i],
        ) by {
            assert(rest.drop_first()[i] == rest[i + 1]);
        }
        lemma_no_separator(current.push(rest[0]), rest.drop_first(), class);
        assert(current.push(rest[0]) + rest.drop_first() =~= current + rest);
    }
}

/// A query without quotes has no exact terms: its terms are those of its words.
pub proof fn law_unquoted_query_is_loose(query: Seq<char>)
    requires
        !query.contains('"'),
    ensures
        terms(query) == loose_terms(words(query, Class::NotWord)),
        forall|i: int| 0 <= i < terms(query).len() ==> !(#[trigger] terms(query)[i]).exact,
{
    assert forall|i: int| 0 <= i < query.len() implies !Class::Only('"').has(
        #[trigger] query[i],
    ) by {
        assert(query.contains(query[i]));
    }
    lemma_no_separator(Seq::empty(), query, Class::Only('"'));
    assert(Seq::<char>::empty() + query =~= query);
    let parts = quote_parts(query);
    assert(parts.drop_last() =~= Seq::empty());
    reveal_with_fuel(terms_of, 2);
    assert(terms(query) =~= loose_terms(words(query, Class::NotWord)));
    lemma_loose_terms(words(query, Class::NotWord));
}

/// How many quotes stand in a text.
pub open spec fn quotes_in(s: Seq<char>) -> nat
    decreases s.len(),
{
    if s.len() == 0 {
        0
    } else if s[0] == '"' {
        1 + quotes_in(s.drop_first())
    } else {
        quotes_in(s.drop_first())
    }
}

/// There is one part more than there are quotes.
proof fn lemma_count_parts(current: Seq<char>, s: Seq<char>)
    ensures
        pieces_from(current, s, Class::Only('"')).len() == quotes_in(s) + 1,
    decreases s.len(),
{
    if s.len() > 0 {
        lemma_count_parts(Seq::empty(), s.drop_first());
        lemma_count_parts(current.push(s[0]), s.drop_first());
    }
}

/// The pieces of two texts, one behind the other: the second goes on with the last piece of the
/// first.
proof fn lemma_pieces_go_on(current: Seq<char>, a: Seq<char>, b: Seq<char>, class: Class)
    ensures
        pieces_from(current, a, class).len() > 0,
        pieces_from(current, a + b, class) == pieces_from(current, a, class).drop_last()
            + pieces_from(pieces_from(current, a, class).last(), b, class),
    decreases a.len(),
{
    let p = pieces_from(current, a, class);
    if a.len() == 0 {
        assert(a + b =~= b);
        assert(p.drop_last() + pieces_from(p.last(), b, class) =~= pieces_from(current, b, class));
    } else {
        assert((a + b).drop_first() =~= a.drop_first() + b);
        if class.has(a[0]) {
            let q = pieces_from(Seq::empty(), a.drop_first(), class);
            lemma_pieces_go_on(Seq::empty(), a.drop_first(), b, class);
            assert(p.last() == q.last());
            assert(p.drop_last() =~= seq![current] + q.drop_last());
            assert(pieces_from(current, a + b, class) =~= p.drop_last() + pieces_from(
                p.last(),
                b,
                class,
            ));
        } else {
            lemma_pieces_go_on(current.push(a[0]), a.drop_first(), b, class);
        }
    }
}

/// What stands before a text becomes the beginning of its first piece.
proof fn lemma_pieces_begin(before: Seq<char>, current: Seq<char>, b: Seq<char>, class: Class)
    ensures
        pieces_from(current, b, class).len() > 0,
        pieces_from(before + current, b, class) == seq![before + pieces_from(current, b, class)[0]]
            + pieces_from(current, b, class).drop_first(),
    decreases b.len(),
{
    let q = pieces_from(current, b, class);
    if b.len() == 0 {
        assert(pieces_from(before + current, b, class) =~= seq![before + q[0]] + q.drop_first());
    } else if class.has(b[0]) {
        assert(pieces_from(before + current, b, class) =~= seq![before + q[0]] + q.drop_first());
    } else {
        lemma_pieces_begin(before, current.push(b[0]), b.drop_first(), class);
        assert((before + current).push(b[0]) =~= before + current.push(b[0]));
    }
}

/// A separator parts the words before it from those behind it.
proof fn lemma_words_apart(
    current: Seq<char>,
    a: Seq<char>,
    separator: char,
    b: Seq<char>,
    class: Class,
)
    requires
        class.has(separator),
    ensures
        words_from(current, a + seq![separator] + b, class) == words_from(current, a, class)
            + words(b, class),
    decreases a.len(),
{
    let s = a + seq![separator] + b;
    if a.len() == 0 {
        assert(s.drop_first() =~= b);
        assert(words_from(current, s, class) =~= words_from(current, a, class) + words(b, class));
    } else {
        assert(s.drop_first() =~= a.drop_first() + seq![separator] + b);
        if class.has(a[0]) {
            lemma_words_apart(Seq::empty(), a.drop_first(), separator, b, class);
            assert(words_from(current, s, class) =~= words_from(current, a, class) + words(
                b,
                class,
            ));
        } else {
            lemma_words_apart(current.push(a[0]), a.drop_first(), separator, b, class);
        }
    }
}

/// The loose terms of more words are those of the first and then those of the others.
proof fn lemma_loose_terms_in_parts(a: Seq<Seq<char>>, b: Seq<Seq<char>>)
    ensures
        loose_terms(a + b) == loose_terms(a) + loose_terms(b),
    decreases b.len(),
{
    if b.len() == 0 {
        assert(a + b =~= a);
        assert(loose_terms(a) + loose_terms(b) =~= loose_terms(a));
    } else {
        lemma_loose_terms_in_parts(a, b.drop_last());
        assert((a + b).drop_last() =~= a + b.drop_last());
        assert((a + b).last() == b.last());
        assert(loose_terms(a + b) =~= loose_terms(a) + loose_terms(b));
    }
}

/// Behind as many parts inside quotes as outside, the terms begin anew.
proof fn lemma_terms_of_in_parts(a: Seq<Seq<char>>, b: Seq<Seq<char>>)
    requires
        a.len() % 2 == 0,
    ensures
        terms_of(a + b) == terms_of(a) + terms_of(b),
    decreases b.len(),
{
    if b.len() == 0 {
        assert(a + b =~= a);
        assert(terms_of(a) + terms_of(b) =~= terms_of(a));
    } else {
        lemma_terms_of_in_parts(a, b.drop_last());
        assert((a + b).drop_last() =~= a + b.drop_last());
        assert((a + b).last() == b.last());
        assert((a + b).len() % 2 == b.len() % 2);
        assert(terms_of(a + b) =~= terms_of(a) + terms_of(b));
    }
}

/// Where the first part is two texts a space apart, the terms are those of the first text and then
/// those of the parts with the second text in its place.
proof fn lemma_first_part_parted(x: Seq<char>, y: Seq<char>, others: Seq<Seq<char>>)
    ensures
        terms_of(seq![x + seq![' '] + y] + others) == terms_of(seq![x]) + terms_of(
            seq![y] + others,
        ),
    decreases others.len(),
{
    let whole = seq![x + seq![' '] + y] + others;
    let second = seq![y] + others;
    assert(seq![x].drop_last() =~= Seq::empty());
    reveal_with_fuel(terms_of, 2);
    assert(terms_of(seq![x]) =~= loose_terms(words(x, Class::NotWord)));
    if others.len() == 0 {
        lemma_words_apart(Seq::empty(), x, ' ', y, Class::NotWord);
        lemma_loose_terms_in_parts(words(x, Class::NotWord), words(y, Class::NotWord));
        assert(whole.drop_last() =~= Seq::empty());
        assert(second.drop_last() =~= Seq::empty());
        assert(terms_of(whole) =~= terms_of(seq![x]) + terms_of(second));
    } else {
        lemma_first_part_parted(x, y, others.drop_last());
        assert(whole.drop_last() =~= seq![x + seq![' '] + y] + others.drop_last());
        assert(second.drop_last() =~= seq![y] + others.drop_last());
        assert(whole.last() == second.last());
        assert(terms_of(whole) =~= terms_of(seq![x]) + terms_of(second));
    }
}

/// The terms of two queries set side by side are those of the first and then those of the second,
/// as long as the first leaves no quote open.
pub proof fn law_queries_side_by_side(a: Seq<char>, b: Seq<char>)
    requires
        quotes_in(a) % 2 == 0,
    ensures
        terms(a + seq![' '] + b) == terms(a) + terms(b),
{
    let class = Class::Only('"');
    let p = quote_parts(a);
    let q = quote_parts(b);
    let space = seq![' '];
    lemma_count_parts(Seq::empty(), a);
    lemma_pieces_go_on(Seq::empty(), a, space + b, class);
    assert(a + space + b =~= a + (space + b));
    assert((space + b).drop_first() =~= b);
    let begun = p.last() + space;
    assert(p.last().push(' ') =~= begun);
    lemma_pieces_begin(begun, Seq::empty(), b, class);
    assert(begun + Seq::<char>::empty() =~= begun);
    let merged = seq![p.last() + space + q[0]] + q.drop_first();
    assert(quote_parts(a + space + b) =~= p.drop_last() + merged);
    lemma_terms_of_in_parts(p.drop_last(), merged);
    lemma_first_part_parted(p.last(), q[0], q.drop_first());
    assert(seq![q[0]] + q.drop_first() =~= q);
    lemma_terms_of_in_parts(p.drop_last(), seq![p.last()]);
    assert(p.drop_last() + seq![p.last()] =~= p);
    assert(terms(a + space + b) =~= terms(a) + terms(b));
}

/// What is asked of the index asks for every term, each as a quoted string of its own, with `AND`
/// between them: two lists of terms ask for what the first asks for and for what the second does.
pub proof fn law_every_term_is_asked_for(a: Seq<TermView>, b: Seq<TermView>, i: int)
    requires
        a.len() > 0,
        b.len() > 0,
        0 <= i < a.len(),
    ensures
        required(a + b) == required(a) + " AND "@ + required(b),
        required(seq![a[0]]) == quoted(a[0].text),
        crate::text::contains(required(a), quoted(a[i].text)),
{
    assert(quoted_all(a + b) =~= quoted_all(a) + quoted_all(b));
    assert(quoted_all(seq![a[0]]) =~= seq![quoted(a[0].text)]);
    crate::text::law_joining_goes_part_by_part(
        quoted_all(a),
        quoted_all(b),
        " AND "@,
        quoted(a[0].text),
    );
    crate::text::lemma_joined_holds(quoted_all(a), " AND "@, i);
}

/// A quoted string stands between two quotes, and a text without quotes stands there as it is.
pub proof fn law_a_quoted_text_stands_in_quotes(term: &str, r: String)
    requires
        call_ensures(quote, (term,), r),
    ensures
        r@.len() >= term@.len() + 2,
        r@[0] == '"' && r@.last() == '"',
        !term@.contains('"') ==> r@ == seq!['"'] + term@ + seq!['"'],
{
    lemma_escaped_last(term@);
    lemma_escaped_plain(term@);
}

proof fn lemma_escaped_plain(s: Seq<char>)
    ensures
        !s.contains('"') ==> escaped(s) == s,
    decreases s.len(),
{
    if s.len() > 0 && !s.contains('"') {
        let t = s.drop_last();
        assert(!t.contains('"')) by {
            if t.contains('"') {
                let i = choose|i: int| 0 <= i < t.len() && t[i] == '"';
                assert(s[i] == '"');
            }
        }
        assert(s[s.len() - 1] != '"') by {
            assert(s.contains(s[s.len() - 1]));
        }
        lemma_escaped_plain(t);
        assert(t.push(s.last()) =~= s);
    } else if s.len() == 0 {
        assert(escaped(s) =~= s);
    }
}

/// A query of one quoted text asks for just that text, without the white space around it and in
/// lowercase.
pub proof fn law_a_quoted_text_is_one_exact_term(text: Seq<char>)
    requires
        !text.contains('"'),
    ensures
        lowercase(trimmed(text)).len() > 0 ==> terms(seq!['"'] + text + seq!['"']) == seq![
            TermView { text: lowercase(trimmed(text)), exact: true },
        ],
{
    let q = seq!['"'] + text + seq!['"'];
    let class = Class::Only('"');
    let none = Seq::<char>::empty();
    assert forall|i: int| 0 <= i < text.len() implies !class.has(#[trigger] text[i]) by {
        assert(text.contains(text[i]));
    }
    assert(q.drop_first() =~= text + seq!['"']);
    lemma_pieces_go_on(none, text, seq!['"'], class);
    lemma_no_separator(none, text, class);
    assert(none + text =~= text);
    let end = seq!['"'];
    assert(end.drop_first() =~= none);
    reveal_with_fuel(pieces_from, 3);
    assert(pieces_from(text, end, class) =~= seq![text] + seq![none]);
    assert(pieces_from(none, text + end, class) =~= seq![text] + seq![none]);
    assert(quote_parts(q) =~= seq![none] + (seq![text] + seq![none]));
    let parts = quote_parts(q);
    assert(parts.len() == 3);
    assert(parts.drop_last().drop_last().drop_last() =~= Seq::empty());
    assert(words(none, Class::NotWord) =~= Seq::empty());
    assert(loose_terms(words(none, Class::NotWord)) =~= Seq::empty());
    reveal_with_fuel(terms_of, 4);
    assert(parts.drop_last().last() == text);
    assert(parts.drop_last().drop_last().last() == none);
    assert(terms_of(parts.drop_last().drop_last()) =~= Seq::empty());
    assert(terms_of(parts.drop_last()) =~= exact_terms(text));
    assert(terms(q) =~= exact_terms(text));
}

/// The loose text of a query without quotes is all its words, one space apart.
pub proof fn law_an_unquoted_query_is_all_loose_text(query: &str, r: String)
    requires
        call_ensures(loose_text, (query,), r),
        !query@.contains('"'),
    ensures
        r@ == joined(words(query@, Class::White), seq![' ']),
{
    let q = query@;
    assert forall|i: int| 0 <= i < q.len() implies !Class::Only('"').has(#[trigger] q[i]) by {
        assert(q.contains(q[i]));
    }
    lemma_no_separator(Seq::empty(), q, Class::Only('"'));
    assert(Seq::<char>::empty() + q =~= q);
    let parts = quote_parts(q);
    assert(parts.drop_last() =~= Seq::empty());
    reveal_with_fuel(unquoted, 2);
    assert(unquoted(parts) =~= q);
}

/// Whether a sequence holds nothing but white space.
pub open spec fn all_white(s: Seq<char>) -> bool {
    forall|i: int| 0 <= i < s.len() ==> crate::text::white_space(#[trigger] s[i])
}

proof fn lemma_words_of_white(current: Seq<char>, rest: Seq<char>)
    ensures
        words_from(current, rest, Class::White).len() == 0 <==> current.len() == 0
            && all_white(rest),
        forall|i: int|
            0 <= i < words_from(current, rest, Class::White).len()
                ==> (#[trigger] words_from(current, rest, Class::White)[i]).len() > 0,
    decreases rest.len(),
{
    if rest.len() > 0 {
        let tail = rest.drop_first();
        lemma_words_of_white(Seq::empty(), tail);
        lemma_words_of_white(current.push(rest[0]), tail);
        assert(all_white(rest) <==> crate::text::white_space(rest[0]) && all_white(tail)) by {
            if all_white(rest) {
                assert forall|i: int| 0 <= i < tail.len() implies crate::text::white_space(
                    #[trigger] tail[i],
                ) by {
                    assert(tail[i] == rest[i + 1]);
                }
            }
            if crate::text::white_space(rest[0]) && all_white(tail) {
                assert forall|i: int| 0 <= i < rest.len() implies crate::text::white_space(
                    #[trigger] rest[i],
                ) by {
                    if i > 0 {
                        assert(tail[i - 1] == rest[i]);
                    }
                }
            }
        }
    }
}

/// Nothing is left to describe the subject exactly when all that stands outside quotes is white
/// space, so a query whose every word is quoted needs no embedding.
pub proof fn law_all_quoted_query_has_no_loose_text(query: Seq<char>)
    ensures
        loose(query).len() == 0 <==> all_white(unquoted(quote_parts(query))),
{
    let s = unquoted(quote_parts(query));
    let ws = words(s, Class::White);
    lemma_words_of_white(Seq::empty(), s);
    if ws.len() > 0 {
        assert(ws.last() == ws[ws.len() - 1]);
        assert(ws[0].len() > 0);
    }
}

proof fn lemma_escaped_last(s: Seq<char>)
    ensures
        escaped(s).len() >= s.len(),
        s.len() > 0 ==> escaped(s).last() == s.last(),
    decreases s.len(),
{
    if s.len() > 0 {
        lemma_escaped_last(s.drop_last());
    }
}

/// Two terms that differ are still told apart once they are escaped.
pub proof fn law_escape_is_injective(a: Seq<char>, b: Seq<char>)
    requires
        escaped(a) == escaped(b),
    ensures
        a == b,
    decreases a.len(),
{
    lemma_escaped_last(a);
    lemma_escaped_last(b);
    if a.len() == 0 {
        assert(a =~= b);
    } else {
        assert(a.last() == b.last());
        let ea = escaped(a.drop_last());
        let eb = escaped(b.drop_last());
        if a.last() == '"' {
            assert(ea.push('"').push('"').drop_last().drop_last() =~= ea);
            assert(eb.push('"').push('"').drop_last().drop_last() =~= eb);
        } else {
            assert(ea.push(a.last()).drop_last() =~= ea);
            assert(eb.push(a.last()).drop_last() =~= eb);
        }
        law_escape_is_injective(a.drop_last(), b.drop_last());
        assert(a =~= a.drop_last().push(a.last()));
        assert(b =~= b.drop_last().push(b.last()));
    }
}

} // verus!
