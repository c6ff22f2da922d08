//! Archiving what was said before the bot was there.
use vstd::prelude::*;
use vstd::string::StringExecFns;

use crate::outside::{rfc3339, rfc3339_of};
use crate::text::{
    begins, contains, decimal, decimal_of, ends, lemma_added, lemma_grouped, lemma_grow, owned, trim,
    trimmed,
};

verus! {

/// How many events a page has.
pub const PAGE_SIZE: u64 = 100;

/// What came of it.
#[derive(Debug, PartialEq, Eq, Structural, Clone, Copy)]
pub struct Stats {
    pub pages: usize,
    pub seen: usize,
    pub archived: usize,
    pub undecryptable: usize,
    pub not_text: usize,
}

impl Default for Stats {
    fn default() -> (r: Self)
        ensures
            r == (Stats { pages: 0, seen: 0, archived: 0, undecryptable: 0, not_text: 0 }),
    {
        Stats { pages: 0, seen: 0, archived: 0, undecryptable: 0, not_text: 0 }
    }
}

/// How the numbers read.
pub open spec fn described(s: Stats) -> Seq<char> {
    decimal(s.pages as nat) + " pages, "@ + decimal(s.seen as nat) + " events: "@ + decimal(
        s.archived as nat,
    ) + " archived, "@ + decimal(s.undecryptable as nat) + " undecryptable, "@ + decimal(
        s.not_text as nat,
    ) + " not text"@
}

/// An event of a room, as far as it could be read.
#[derive(Debug)]
pub enum Event {
    /// One that is no message, or could not be read.
    Other,
    /// A message for which there is no key.
    Encrypted,
    /// A message: its text, and when the server received it, in milliseconds since the epoch.
    Message { event_id: String, sender: String, body: String, millis: i64 },
}

/// What is taken of an event.
#[derive(Debug)]
pub enum Extracted {
    Text { event_id: String, sender: String, body: String, at: String },
    Undecryptable,
    Other,
}

/// What becomes of an event.
#[derive(PartialEq, Eq, Structural, Clone, Copy)]
pub enum Fate {
    Archived,
    /// A message that could not be written down.
    Lost,
    Undecryptable,
    NotText,
}

/// When a message was received; one whose time cannot be told counts as received now.
pub open spec fn received_at(known: Option<Seq<char>>, now: Seq<char>) -> Seq<char> {
    match known {
        Some(at) => at,
        None => now,
    }
}

/// Whether `r` is what is taken of an event, given how its time is written.
pub open spec fn taken(event: Event, at: Option<Seq<char>>, now: Seq<char>, r: Extracted) -> bool {
    match event {
        Event::Other => r == Extracted::Other,
        Event::Encrypted => r == Extracted::Undecryptable,
        Event::Message { event_id, sender, body, millis } => if trimmed(body@).len() == 0 {
            r == Extracted::Other
        } else {
            r matches Extracted::Text { event_id: e, sender: s, body: b, at: a } && e@ == event_id@
                && s@ == sender@ && b@ == trimmed(body@) && a@ == received_at(at, now)
        },
    }
}

/// When an event was received, in milliseconds since the epoch.
pub open spec fn millis_of(event: Event) -> i64 {
    match event {
        Event::Message { event_id, sender, body, millis } => millis,
        _ => 0,
    }
}

/// What is taken of an event, given how its time is written.
pub fn take(event: Event, at: Option<String>, now: &str) -> (r: Extracted)
    ensures
        taken(event, crate::outside::text_of(at), now@, r),
{
    match event {
        Event::Other => Extracted::Other,
        Event::Encrypted => Extracted::Undecryptable,
        Event::Message { event_id, sender, body, millis: _ } => {
            let text = owned(trim(body.as_str()));
            if text.as_str().unicode_len() == 0 {
                return Extracted::Other;
            }
            let at = match at {
                Some(at) => at,
                None => owned(now),
            };
            Extracted::Text { event_id, sender, body: text, at }
        },
    }
}

/// What is taken of an event.
pub fn extract(event: Event, now: &str) -> (r: Extracted)
    ensures
        taken(event, rfc3339(millis_of(event)), now@, r),
{
    let millis: i64 = match &event {
        Event::Message { event_id: _, sender: _, body: _, millis } => *millis,
        _ => 0,
    };
    take(event, rfc3339_of(millis), now)
}

/// The numbers after one more event.
pub open spec fn counted(s: Stats, fate: Fate) -> Stats {
    let seen = Stats { seen: (s.seen + 1) as usize, ..s };
    match fate {
        Fate::Archived => Stats { archived: (s.archived + 1) as usize, ..seen },
        Fate::Lost => seen,
        Fate::Undecryptable => Stats { undecryptable: (s.undecryptable + 1) as usize, ..seen },
        Fate::NotText => Stats { not_text: (s.not_text + 1) as usize, ..seen },
    }
}

/// Whether the numbers add up: everything that was seen became something.
pub open spec fn adds_up(s: Stats) -> bool {
    s.archived + s.undecryptable + s.not_text <= s.seen
}

/// However events turn out, no more of them are counted as something than were seen.
pub proof fn law_the_numbers_add_up(s: Stats, fate: Fate)
    requires
        adds_up(s),
        s.seen < usize::MAX,
    ensures
        adds_up(counted(s, fate)),
{
}

impl Stats {
    /// How the numbers read.
    pub fn describe(&self) -> (r: String)
        ensures
            r@ == described(*self),
    {
        let mut out = decimal_of(self.pages as u64);
        out.append(" pages, ");
        out.append(decimal_of(self.seen as u64).as_str());
        out.append(" events: ");
        out.append(decimal_of(self.archived as u64).as_str());
        out.append(" archived, ");
        out.append(decimal_of(self.undecryptable as u64).as_str());
        out.append(" undecryptable, ");
        out.append(decimal_of(self.not_text as u64).as_str());
        out.append(" not text");
        out
    }

    /// Counts one more event.
    pub fn count(&mut self, fate: Fate)
        requires
            old(self).seen < usize::MAX,
            adds_up(*old(self)),
        ensures
            *final(self) == counted(*old(self), fate),
            adds_up(*final(self)),
    {
        self.seen = self.seen + 1;
        match fate {
            Fate::Archived => {
                self.archived = self.archived + 1;
            },
            Fate::Lost => {},
            Fate::Undecryptable => {
                self.undecryptable = self.undecryptable + 1;
            },
            Fate::NotText => {
                self.not_text = self.not_text + 1;
            },
        }
    }

    /// Counts one more page.
    pub fn turn_page(&mut self)
        requires
            old(self).pages < usize::MAX,
        ensures
            *final(self) == (Stats { pages: (old(self).pages + 1) as usize, ..*old(self) }),
    {
        self.pages = self.pages + 1;
    }

    /// Whether most of what was seen could not be decrypted: there are no keys for it.
    pub fn mostly_undecryptable(&self) -> (r: bool)
        ensures
            r == (self.undecryptable > self.archived),
    {
        self.undecryptable > self.archived
    }
}

/// The pages of a room, from the newest back.
pub struct Paging {
    page: usize,
    max_pages: usize,
    from: Option<String>,
    done: bool,
}

impl Paging {
    /// How many pages have been turned.
    pub closed spec fn turned(&self) -> int {
        self.page as int
    }

    /// How many pages may be turned.
    pub closed spec fn allowed(&self) -> int {
        self.max_pages as int
    }

    /// Where the next page begins, where that is not the end of the room.
    pub closed spec fn start(&self) -> Option<Seq<char>> {
        crate::outside::text_of(self.from)
    }

    /// Whether there is nothing before.
    pub closed spec fn exhausted(&self) -> bool {
        self.done
    }

    #[verifier::type_invariant]
    spec fn sound(&self) -> bool {
        self.page <= self.max_pages
    }

    /// Begins at the newest page.
    pub fn new(max_pages: usize) -> (r: Self)
        ensures
            r.turned() == 0,
            r.allowed() == max_pages,
            r.start() is None,
            !r.exhausted(),
    {
        Paging { page: 0, max_pages, from: None, done: false }
    }

    /// Where the next page begins, where there is a page to turn.
    pub fn next(&self) -> (r: Option<Option<String>>)
        ensures
            match r {
                Some(from) => !self.exhausted() && self.turned() < self.allowed()
                    && crate::outside::text_of(from) == self.start(),
                None => self.exhausted() || self.turned() == self.allowed(),
            },
    {
        proof {
            use_type_invariant(self);
        }
        if self.done || self.page == self.max_pages {
            None
        } else {
            Some(
                match &self.from {
                    Some(f) => Some(f.clone()),
                    None => None,
                },
            )
        }
    }

    /// The number of the page that is turned next.
    pub fn number(&self) -> (r: usize)
        ensures
            r == self.turned(),
    {
        self.page
    }

    /// Takes note of a page: whether it had no events, and where the one before it begins. An empty
    /// page is the last, and so is one before which there is none.
    pub fn turn(&mut self, empty: bool, end: Option<String>)
        requires
            old(self).turned() < old(self).allowed(),
        ensures
            final(self).turned() == old(self).turned() + 1,
            final(self).allowed() == old(self).allowed(),
            final(self).exhausted() == (old(self).exhausted() || empty || end is None),
            final(self).start() == (if empty || end is None {
                old(self).start()
            } else {
                crate::outside::text_of(end)
            }),
    {
        self.page = self.page + 1;
        if empty {
            self.done = true;
        } else {
            match end {
                Some(e) => {
                    self.from = Some(e);
                },
                None => {
                    self.done = true;
                },
            }
        }
    }
}

// ---------------------------------------------------------------------------------------------
// Laws
// ---------------------------------------------------------------------------------------------

/// A message that says anything is archived with its event, its sender, what it says without the white
/// space around it, and when it was received, or now where that cannot be told. One that says nothing is
/// not, nor is one that cannot be read, which is told apart.
pub proof fn law_what_was_said_is_archived(event: Event, now: &str, r: Extracted)
    requires
        call_ensures(extract, (event, now), r),
    ensures
        event matches Event::Message { event_id, sender, body, millis } ==> {
            &&& trimmed(body@).len() > 0 ==> (r matches Extracted::Text {
                event_id: e,
                sender: s,
                body: b,
                at,
            } && e@ == event_id@ && s@ == sender@ && b@ == trimmed(body@) && (rfc3339(millis)
                matches Some(t) ==> at@ == t) && (rfc3339(millis) is None ==> at@ == now@))
            &&& trimmed(body@).len() == 0 ==> r == Extracted::Other
        },
        event == Event::Encrypted ==> r == Extracted::Undecryptable,
        event == Event::Other ==> r == Extracted::Other,
{
}

/// An event is counted once as seen, and once as what became of it; no other number changes.
pub proof fn law_an_event_is_counted_as_what_it_became(s: &mut Stats, fate: Fate)
    requires
        call_ensures(Stats::count, (s, fate), ()),
        old(s).seen < usize::MAX,
        adds_up(*old(s)),
    ensures
        final(s).seen == old(s).seen + 1,
        final(s).pages == old(s).pages,
        final(s).archived == old(s).archived + (if fate == Fate::Archived {
            1int
        } else {
            0int
        }),
        final(s).undecryptable == old(s).undecryptable + (if fate == Fate::Undecryptable {
            1int
        } else {
            0int
        }),
        final(s).not_text == old(s).not_text + (if fate == Fate::NotText {
            1int
        } else {
            0int
        }),
{
}

/// What is told of the numbers tells each of them, with what it is the number of.
pub proof fn law_every_number_is_told(s: &Stats, r: String)
    requires
        call_ensures(Stats::describe, (s,), r),
    ensures
        begins(r@, decimal(s.pages as nat) + " pages, "@),
        contains(r@, decimal(s.seen as nat) + " events: "@),
        contains(r@, decimal(s.archived as nat) + " archived, "@),
        contains(r@, decimal(s.undecryptable as nat) + " undecryptable, "@),
        ends(r@, decimal(s.not_text as nat) + " not text"@),
{
    let p = decimal(s.pages as nat) + " pages, "@;
    let e = decimal(s.seen as nat) + " events: "@;
    let a = decimal(s.archived as nat) + " archived, "@;
    let u = decimal(s.undecryptable as nat) + " undecryptable, "@;
    let n = decimal(s.not_text as nat) + " not text"@;
    lemma_grouped(p, decimal(s.seen as nat), " events: "@);
    lemma_grouped(p + e, decimal(s.archived as nat), " archived, "@);
    lemma_grouped(p + e + a, decimal(s.undecryptable as nat), " undecryptable, "@);
    lemma_grouped(p + e + a + u, decimal(s.not_text as nat), " not text"@);
    assert(r@ == p + e + a + u + n);
    lemma_added(p, e);
    lemma_added(p + e, a);
    lemma_added(p + e + a, u);
    lemma_added(p + e + a + u, n);
    lemma_grow(p + e, a, p);
    lemma_grow(p + e, a, e);
    lemma_grow(p + e + a, u, p);
    lemma_grow(p + e + a, u, e);
    lemma_grow(p + e + a, u, a);
    lemma_grow(p + e + a + u, n, p);
    lemma_grow(p + e + a + u, n, e);
    lemma_grow(p + e + a + u, n, a);
    lemma_grow(p + e + a + u, n, u);
}

/// Pages are turned one by one, each from where the one before it said, and no more of them than are
/// allowed. A page without events ends it, and so does one before which there is none.
pub proof fn law_pages_are_turned_back_to_the_first(
    p: &mut Paging,
    empty: bool,
    end: Option<String>,
)
    requires
        call_ensures(Paging::turn, (p, empty, end), ()),
        old(p).turned() < old(p).allowed(),
        !old(p).exhausted(),
    ensures
        final(p).turned() == old(p).turned() + 1,
        final(p).allowed() == old(p).allowed(),
        final(p).exhausted() <==> empty || end is None,
        !empty ==> (end matches Some(e) ==> final(p).start() == Some(e@)),
{
}

/// There is a page to turn exactly as long as pages are allowed and there is anything before.
pub proof fn law_paging_stops_where_it_should(
    p: &Paging,
    r: Option<Option<String>>,
    pages: usize,
    fresh: Paging,
)
    requires
        call_ensures(Paging::next, (p,), r),
        call_ensures(Paging::new, (pages,), fresh),
        p.turned() <= p.allowed(),
    ensures
        r is Some <==> !p.exhausted() && p.turned() < p.allowed(),
        r matches Some(from) ==> crate::outside::text_of(from) == p.start(),
        fresh.turned() == 0 && fresh.allowed() == pages && fresh.start() is None && !fresh.exhausted(),
{
}

/// One more page is counted and nothing else is changed, and there are no keys for a room where more
/// could not be read than was archived.
pub proof fn law_a_page_is_counted(s: &mut Stats, mostly: bool)
    requires
        call_ensures(Stats::turn_page, (s,), ()),
        call_ensures(Stats::mostly_undecryptable, (old(s),), mostly),
        old(s).pages < usize::MAX,
    ensures
        final(s).pages == old(s).pages + 1,
        final(s).seen == old(s).seen,
        final(s).archived == old(s).archived,
        final(s).undecryptable == old(s).undecryptable,
        final(s).not_text == old(s).not_text,
        mostly <==> old(s).archived < old(s).undecryptable,
{
}

} // verus!
