//! The workspaces of the rooms: which files lie in them, and how files are written and edited.
use vstd::prelude::*;
use vstd::string::StringExecFns;

use crate::db::{key_of_room, room_key};
use crate::text::{
    alphanumeric, begins, chars_of, decimal, decimal_of, find, find_from, occurs_at, owned, pieces,
    same, split, strip, strip_front, strip_front_of, strip_of, views, Class,
};

verus! {

/// A directory in which files can be written.
pub struct Workspace {
    root: String,
}

/// A replacement in a file.
pub struct Edit {
    pub old: String,
    pub new: String,
}

/// Why a file is not written.
#[derive(Debug)]
pub enum WorkspaceError {
    /// A path that climbs out.
    Climbs(String),
    /// A path that leads out through a link.
    Leaves(String),
    /// An edit, by its number, that matches nothing in the file.
    NoMatch { edit: usize, path: String },
    /// An edit, by its number, that matches several places.
    Ambiguous { edit: usize, places: usize, path: String },
    /// Two edits, by their numbers, of the same text.
    Overlap { first: usize, second: usize, path: String },
}

impl WorkspaceError {
    /// How the error reads.
    pub open spec fn words(self) -> Seq<char> {
        match self {
            WorkspaceError::Climbs(path) => "'"@ + path@ + "' must stay inside the workspace"@,
            WorkspaceError::Leaves(path) => "'"@ + path@ + "' resolves outside the workspace"@,
            WorkspaceError::NoMatch { edit, path } => "edit "@ + decimal(edit as nat)
                + " did not match anything in "@ + path@,
            WorkspaceError::Ambiguous { edit, places, path } => "edit "@ + decimal(edit as nat)
                + " matches "@ + decimal(places as nat) + " places in "@ + path@
                + "; include more surrounding text to make it unique"@,
            WorkspaceError::Overlap { first, second, path } => "edits "@ + decimal(first as nat)
                + " and "@ + decimal(second as nat) + " overlap in "@ + path@,
        }
    }

    /// How the error reads.
    pub fn message(&self) -> (r: String)
        ensures
            r@ == self.words(),
    {
        match self {
            WorkspaceError::Climbs(path) => {
                let mut out = owned("'");
                out.append(path.as_str());
                out.append("' must stay inside the workspace");
                out
            },
            WorkspaceError::Leaves(path) => {
                let mut out = owned("'");
                out.append(path.as_str());
                out.append("' resolves outside the workspace");
                out
            },
            WorkspaceError::NoMatch { edit, path } => {
                let mut out = owned("edit ");
                out.append(decimal_of(*edit as u64).as_str());
                out.append(" did not match anything in ");
                out.append(path.as_str());
                out
            },
            WorkspaceError::Ambiguous { edit, places, path } => {
                let mut out = owned("edit ");
                out.append(decimal_of(*edit as u64).as_str());
                out.append(" matches ");
                out.append(decimal_of(*places as u64).as_str());
                out.append(" places in ");
                out.append(path.as_str());
                out.append("; include more surrounding text to make it unique");
                out
            },
            WorkspaceError::Overlap { first, second, path } => {
                let mut out = owned("edits ");
                out.append(decimal_of(*first as u64).as_str());
                out.append(" and ");
                out.append(decimal_of(*second as u64).as_str());
                out.append(" overlap in ");
                out.append(path.as_str());
                out
            },
        }
    }
}

// ---------------------------------------------------------------------------------------------
// Paths
// ---------------------------------------------------------------------------------------------

/// A directory and a name in it.
pub open spec fn under(base: Seq<char>, name: Seq<char>) -> Seq<char> {
    if base.len() == 0 || base.last() == '/' {
        base + name
    } else {
        base + "/"@ + name
    }
}

/// A directory and a path of names in it. Empty names and dots stay where they are.
pub open spec fn below(base: Seq<char>, names: Seq<Seq<char>>) -> Seq<char>
    decreases names.len(),
{
    if names.len() == 0 {
        base
    } else if names.last().len() == 0 || names.last() == "."@ {
        below(base, names.drop_last())
    } else {
        under(below(base, names.drop_last()), names.last())
    }
}

/// The names of a path, which is taken from the root whether it begins with a slash or not.
pub open spec fn names_in(path: Seq<char>) -> Seq<Seq<char>> {
    pieces(strip_front(path, Class::Only('/')), Class::Only('/'))
}

/// Whether a path climbs out of a directory.
pub open spec fn climbs(path: Seq<char>) -> bool {
    names_in(path).contains(".."@)
}

/// Where a path leads, as long as it does not climb.
pub open spec fn resolved(root: Seq<char>, path: Seq<char>) -> Seq<char> {
    below(root, names_in(path))
}

/// A directory and a name in it.
fn join_path(base: &str, name: &str) -> (r: String)
    ensures
        r@ == under(base@, name@),
{
    let chars = chars_of(base);
    let mut out = owned(base);
    if chars.len() > 0 && chars[chars.len() - 1] != '/' {
        out.append("/");
    }
    out.append(name);
    out
}

/// What is known of a place where a file is to go.
pub enum Probe {
    /// Neither the file nor any directory towards it is there.
    Missing,
    /// The deepest part of the path that is there, with its links followed.
    Real(String),
    /// The deepest part of the path that is there is a link to nothing that is there: the place that
    /// a file written through it would take, with links followed.
    Dangling(String),
    /// The deepest part of the path that is there is a link whose place cannot be told.
    Lost,
}

/// Whether a path with its links followed lies in a directory, or is it.
pub open spec fn within(place: Seq<char>, root: Seq<char>) -> bool {
    ||| place == root
    ||| begins(place, root + "/"@)
    ||| root.len() > 0 && root.last() == '/' && begins(place, root)
}

/// Whether a place lies in a directory.
pub open spec fn confined(probe: Probe, root: Seq<char>) -> bool {
    match probe {
        Probe::Missing => true,
        Probe::Real(place) => within(place@, root),
        Probe::Dangling(place) => within(place@, root),
        Probe::Lost => false,
    }
}

/// Whether a path with its links followed lies in a directory, or is it.
fn is_within(place: &str, root: &str) -> (r: bool)
    ensures
        r == within(place@, root@),
{
    let chars = chars_of(root);
    let mut inside = owned(root);
    inside.append("/");
    same(place, root) || crate::text::after_prefix(place, inside.as_str()).is_some() || (chars.len()
        > 0 && chars[chars.len() - 1] == '/' && crate::text::after_prefix(place, root).is_some())
}

impl Workspace {
    /// The directory.
    pub closed spec fn root_view(&self) -> Seq<char> {
        self.root@
    }

    /// A workspace in the given directory.
    pub fn new(root: String) -> (r: Self)
        ensures
            r.root_view() == root@,
    {
        Workspace { root }
    }

    /// The directory.
    pub fn root(&self) -> (r: &str)
        ensures
            r@ == self.root_view(),
    {
        self.root.as_str()
    }

    /// The workspace of a room, in a directory of its own.
    pub fn scoped(&self, room_id: &str) -> (r: Self)
        ensures
            r.root_view() == under(self.root_view(), key_of_room(room_id@)),
    {
        Workspace { root: join_path(self.root.as_str(), room_key(room_id).as_str()) }
    }

    /// Where a path leads. One that climbs out is refused.
    pub fn resolve(&self, path: &str) -> (r: Result<String, WorkspaceError>)
        ensures
            match r {
                Ok(full) => !climbs(path@) && full@ == resolved(self.root_view(), path@),
                Err(e) => climbs(path@) && (e matches WorkspaceError::Climbs(p) && p@ == path@),
            },
    {
        let names = split(strip_front_of(path, &Class::Only('/')), &Class::Only('/'));
        let ghost all = views(names@);
        proof {
            reveal_strlit("");
            reveal_strlit(".");
            reveal_strlit("..");
        }
        let mut out = self.root.clone();
        assert(all.take(0) =~= Seq::empty());
        for i in 0..names.len()
            invariant
                all == views(names@),
                all == names_in(path@),
                forall|j: int| 0 <= j < i ==> #[trigger] all[j] != ".."@,
                out@ == below(self.root_view(), all.take(i as int)),
        {
            let name = names[i].as_str();
            assert(all[i as int] == name@);
            assert(all.take(i + 1).drop_last() =~= all.take(i as int));
            assert(all.take(i + 1).last() == name@);
            if same(name, "..") {
                assert(all.contains(".."@));
                return Err(WorkspaceError::Climbs(owned(path)));
            }
            if name.unicode_len() > 0 && !same(name, ".") {
                out = join_path(out.as_str(), name);
            }
        }
        assert(all.take(names@.len() as int) =~= all);
        Ok(out)
    }

    /// Lets a path pass whose place lies in the workspace, with links followed; `real_root` is the
    /// directory with its own links followed. A link that leads out, or whose place cannot be told, is
    /// not passed.
    pub fn confine(real_root: &str, path: &str, probe: &Probe) -> (r: Result<(), WorkspaceError>)
        ensures
            match r {
                Ok(_) => confined(*probe, real_root@),
                Err(e) => !confined(*probe, real_root@) && (e matches WorkspaceError::Leaves(p)
                    && p@ == path@),
            },
    {
        let inside = match probe {
            Probe::Missing => true,
            Probe::Real(place) => is_within(place.as_str(), real_root),
            Probe::Dangling(place) => is_within(place.as_str(), real_root),
            Probe::Lost => false,
        };
        if inside {
            Ok(())
        } else {
            Err(WorkspaceError::Leaves(owned(path)))
        }
    }
}

/// A path leads into the directory: what is behind the directory's own name is a slash, or nothing.
/// Names that climb are refused before, so following the names never leaves it either.
pub proof fn law_paths_stay_below_the_root(root: Seq<char>, names: Seq<Seq<char>>)
    requires
        root.len() > 0,
    ensures
        within(below(root, names), root),
    decreases names.len(),
{
    reveal_strlit("/");
    if names.len() > 0 {
        let earlier = below(root, names.drop_last());
        law_paths_stay_below_the_root(root, names.drop_last());
        if names.last().len() > 0 && names.last() != "."@ {
            let full = under(earlier, names.last());
            let inside = root + "/"@;
            if earlier == root {
                if root.last() == '/' {
                    assert(full.subrange(0, root.len() as int) =~= root);
                } else {
                    assert(full.subrange(0, inside.len() as int) =~= inside);
                }
            } else if begins(earlier, inside) {
                assert(earlier.subrange(0, inside.len() as int) =~= inside);
                assert(full.subrange(0, inside.len() as int) =~= earlier.subrange(
                    0,
                    inside.len() as int,
                ));
            } else {
                assert(full.subrange(0, root.len() as int) =~= earlier.subrange(
                    0,
                    root.len() as int,
                ));
            }
        }
    }
}

/// Rooms that are filed under different names have different workspaces.
pub proof fn law_rooms_have_workspaces_of_their_own(root: Seq<char>, a: Seq<char>, b: Seq<char>)
    requires
        a != b,
    ensures
        under(root, a) != under(root, b),
{
    let prefix = if root.len() == 0 || root.last() == '/' {
        root
    } else {
        root + "/"@
    };
    assert(under(root, a).skip(prefix.len() as int) =~= a);
    assert(under(root, b).skip(prefix.len() as int) =~= b);
}

// ---------------------------------------------------------------------------------------------
// Incoming files
// ---------------------------------------------------------------------------------------------

/// A character that a file name may keep.
pub open spec fn kept_in_name(c: char) -> bool {
    alphanumeric(c) || c == '.' || c == '_' || c == '-'
}

/// A file name of which only harmless characters are left.
pub open spec fn harmless(name: Seq<char>) -> Seq<char> {
    Seq::new(
        name.len(),
        |i: int|
            if kept_in_name(name[i]) {
                name[i]
            } else {
                '_'
            },
    )
}

/// The name under which a received file is saved.
pub open spec fn saved_name(name: Seq<char>) -> Seq<char> {
    if strip(harmless(name), Class::Only('_')).len() == 0 {
        "attachment"@
    } else {
        harmless(name)
    }
}

/// Where a received file is saved, from the root of the workspace.
pub open spec fn saved_path(name: Seq<char>) -> Seq<char> {
    "inbox/"@ + saved_name(name)
}

/// Writes where a received file is saved, from the root of the workspace.
fn name_incoming(filename: &str) -> (r: String)
    ensures
        r@ == saved_path(filename@),
{
    let chars = chars_of(filename);
    let mut safe = String::new();
    for i in 0..chars.len()
        invariant
            chars@ == filename@,
            safe@ == harmless(filename@).take(i as int),
    {
        let c = chars[i];
        if c.is_alphanumeric() || c == '.' || c == '_' || c == '-' {
            safe.push(c);
        } else {
            safe.push('_');
        }
        assert(safe@ =~= harmless(filename@).take(i + 1));
    }
    assert(safe@ =~= harmless(filename@));
    let mut out = owned("inbox/");
    if strip_of(safe.as_str(), &Class::Only('_')).unicode_len() == 0 {
        out.append("attachment");
    } else {
        out.append(safe.as_str());
    }
    out
}

/// Where a file goes: as it is named in the workspace, and in full.
pub struct Destination {
    pub relative: String,
    pub full: String,
}

impl Workspace {
    /// Where a received file is saved.
    pub fn save_incoming(&self, filename: &str) -> (r: Result<Destination, WorkspaceError>)
        ensures
            match r {
                Ok(d) => !climbs(saved_path(filename@)) && d.relative@ == saved_path(filename@)
                    && d.full@ == resolved(self.root_view(), saved_path(filename@)),
                Err(e) => climbs(saved_path(filename@)) && (e matches WorkspaceError::Climbs(p)
                    && p@ == saved_path(filename@)),
            },
    {
        let relative = name_incoming(filename);
        match self.resolve(relative.as_str()) {
            Ok(full) => Ok(Destination { relative, full }),
            Err(e) => Err(e),
        }
    }
}

// ---------------------------------------------------------------------------------------------
// Writing
// ---------------------------------------------------------------------------------------------

/// How many newlines a text holds.
pub open spec fn newlines(s: Seq<char>) -> nat
    decreases s.len(),
{
    if s.len() == 0 {
        0
    } else {
        newlines(s.drop_last()) + (if s.last() == '\n' {
            1nat
        } else {
            0nat
        })
    }
}

/// How many lines a text has. A newline at the end does not begin another.
pub open spec fn line_count(s: Seq<char>) -> nat {
    if s.len() == 0 || s.last() == '\n' {
        newlines(s)
    } else {
        newlines(s) + 1
    }
}

/// A text holds no more newlines than characters.
proof fn lemma_newlines(s: Seq<char>)
    ensures
        newlines(s) <= s.len(),
    decreases s.len(),
{
    if s.len() > 0 {
        lemma_newlines(s.drop_last());
    }
}

/// Counts the lines of a text.
fn count_lines(s: &str) -> (r: usize)
    ensures
        r == line_count(s@),
{
    let chars = chars_of(s);
    let total: usize = chars.len();
    let mut n: usize = 0;
    assert(s@.take(0) =~= Seq::empty());
    for i in 0..total
        invariant
            chars@ == s@,
            total == chars@.len(),
            n <= i,
            n == newlines(s@.take(i as int)),
    {
        assert(s@.take(i + 1).drop_last() =~= s@.take(i as int));
        if chars[i] == '\n' {
            n = n + 1;
        }
    }
    assert(s@.take(total as int) =~= s@);
    if total > 0 && chars[total - 1] != '\n' {
        proof {
            lemma_newlines(s@.drop_last());
        }
        n = n + 1;
    }
    n
}

/// What is said of a file that was written.
pub open spec fn written(path: Seq<char>, content: Seq<char>) -> Seq<char> {
    "Wrote "@ + decimal(line_count(content)) + " lines to "@ + path + "."@
}

/// What writing a file comes to: where it goes in full, and what is said when it is there.
pub struct Writing {
    pub full: String,
    pub said: String,
}

impl Workspace {
    /// What writing a file comes to. A path that climbs out is refused.
    pub fn write(&self, path: &str, content: &str) -> (r: Result<Writing, WorkspaceError>)
        ensures
            match r {
                Ok(w) => !climbs(path@) && w.full@ == resolved(self.root_view(), path@) && w.said@
                    == written(path@, content@),
                Err(e) => climbs(path@) && (e matches WorkspaceError::Climbs(p) && p@ == path@),
            },
    {
        match self.resolve(path) {
            Ok(full) => {
                let mut said = owned("Wrote ");
                said.append(decimal_of(count_lines(content) as u64).as_str());
                said.append(" lines to ");
                said.append(path);
                said.append(".");
                Ok(Writing { full, said })
            },
            Err(e) => Err(e),
        }
    }
}

// ---------------------------------------------------------------------------------------------
// Editing
// ---------------------------------------------------------------------------------------------

/// How many times a text occurs in another from `from` on, not counting occurrences that overlap.
/// Nothing occurs before every character and at the end.
pub open spec fn occurrences(s: Seq<char>, needle: Seq<char>, from: int) -> nat
    decreases s.len() - from,
{
    if needle.len() == 0 {
        (s.len() - from + 1) as nat
    } else {
        match find_from(s, needle, from) {
            Some(i) => if from <= i && i + needle.len() <= s.len() {
                1 + occurrences(s, needle, i + needle.len())
            } else {
                0
            },
            None => 0,
        }
    }
}

/// A place in a file, and what goes there instead.
#[verifier::ext_equal]
pub struct Spot {
    pub at: int,
    pub len: int,
    pub new: Seq<char>,
}

/// Where an edit applies: at the first occurrence of its text.
pub open spec fn spot(original: Seq<char>, edit: Edit) -> Spot {
    Spot {
        at: match find_from(original, edit.old@, 0) {
            Some(i) => i,
            None => 0,
        },
        len: edit.old@.len() as int,
        new: edit.new@,
    }
}

/// Where edits apply.
pub open spec fn spots(original: Seq<char>, edits: Seq<Edit>) -> Seq<Spot> {
    Seq::new(edits.len(), |i: int| spot(original, edits[i]))
}

/// Whether two places have nothing in common.
pub open spec fn apart(a: Spot, b: Spot) -> bool {
    a.at != b.at && (a.at + a.len <= b.at || b.at + b.len <= a.at)
}

/// Whether an edit matches exactly one place.
pub open spec fn matches_once(original: Seq<char>, edit: Edit) -> bool {
    occurrences(original, edit.old@, 0) == 1
}

/// The first of the places that begins at `pos`.
pub open spec fn starting(ps: Seq<Spot>, pos: int) -> Option<int>
    decreases ps.len(),
{
    if ps.len() == 0 {
        None
    } else {
        match starting(ps.drop_last(), pos) {
            Some(i) => Some(i),
            None => if ps.last().at == pos {
                Some(ps.len() - 1)
            } else {
                None
            },
        }
    }
}

/// The text from `pos` on, with what goes in place of the given places.
pub open spec fn rewritten(original: Seq<char>, ps: Seq<Spot>, pos: int) -> Seq<char>
    decreases original.len() - pos,
{
    match starting(ps, pos) {
        Some(k) => ps[k].new + (if ps[k].len > 0 && pos + ps[k].len <= original.len() {
            rewritten(original, ps, pos + ps[k].len)
        } else {
            Seq::empty()
        }),
        None => if pos < original.len() {
            seq![original[pos]] + rewritten(original, ps, pos + 1)
        } else {
            Seq::empty()
        },
    }
}

/// Whether the places of the edits before `second`, and those before `first` and at `second`, have
/// nothing in common with each other.
pub open spec fn apart_until(ps: Seq<Spot>, first: int, second: int) -> bool {
    forall|a: int, b: int|
        #![trigger ps[a], ps[b]]
        0 <= a < b < ps.len() && (b < second || (b == second && a < first)) ==> apart(ps[a], ps[b])
}

/// Whether `r` is what comes of editing a text: every edit is matched against the text as it was,
/// and either all apply or none does.
pub open spec fn edited(
    original: Seq<char>,
    path: Seq<char>,
    edits: Seq<Edit>,
    r: Result<String, WorkspaceError>,
) -> bool {
    let ps = spots(original, edits);
    let all_match = forall|i: int|
        0 <= i < edits.len() ==> matches_once(original, #[trigger] edits[i]);
    match r {
        Ok(text) => {
            &&& all_match
            &&& apart_until(ps, 0, edits.len() as int)
            &&& text@ == rewritten(original, ps, 0)
        },
        Err(WorkspaceError::NoMatch { edit, path: p }) => {
            &&& 1 <= edit <= edits.len()
            &&& forall|i: int| 0 <= i < edit - 1 ==> matches_once(original, #[trigger] edits[i])
            &&& occurrences(original, edits[edit - 1].old@, 0) == 0
            &&& p@ == path
        },
        Err(WorkspaceError::Ambiguous { edit, places, path: p }) => {
            &&& 1 <= edit <= edits.len()
            &&& forall|i: int| 0 <= i < edit - 1 ==> matches_once(original, #[trigger] edits[i])
            &&& occurrences(original, edits[edit - 1].old@, 0) == places
            &&& places > 1
            &&& p@ == path
        },
        Err(WorkspaceError::Overlap { first, second, path: p }) => {
            &&& all_match
            &&& 1 <= first < second <= edits.len()
            &&& apart_until(ps, first - 1, second - 1)
            &&& !apart(ps[first - 1], ps[second - 1])
            &&& p@ == path
        },
        Err(_) => false,
    }
}

/// A text occurs no more often than there is room for it.
proof fn lemma_occurrences(s: Seq<char>, needle: Seq<char>, from: int)
    requires
        0 <= from <= s.len(),
    ensures
        occurrences(s, needle, from) <= s.len() - from + 1,
        needle.len() > 0 ==> occurrences(s, needle, from) <= s.len() - from,
    decreases s.len() - from,
{
    if needle.len() > 0 {
        crate::text::lemma_find_from(s, needle, from);
        match find_from(s, needle, from) {
            Some(i) => {
                lemma_occurrences(s, needle, i + needle.len());
            },
            None => {},
        }
    }
}

/// Counts how many times a text occurs in another. Nothing occurs once in nothing, and more than
/// once in anything else; how often does not matter then, as long as it can be counted.
fn count_occurrences(s: &Vec<char>, needle: &Vec<char>) -> (r: usize)
    requires
        needle@.len() > 0 || s@.len() < usize::MAX,
    ensures
        r == occurrences(s@, needle@, 0),
{
    if needle.len() == 0 {
        return s.len() + 1;
    }
    let mut n: usize = 0;
    let mut from: usize = 0;
    let end: usize = s.len();
    loop
        invariant
            needle@.len() > 0,
            end == s@.len(),
            from <= end,
            n <= from,
            n + occurrences(s@, needle@, from as int) == occurrences(s@, needle@, 0),
        decreases end - from,
    {
        proof {
            crate::text::lemma_find_from(s@, needle@, from as int);
        }
        match find(s.as_slice(), needle.as_slice(), from) {
            Some(i) => {
                n = n + 1;
                from = i + needle.len();
            },
            None => {
                return n;
            },
        }
    }
}

/// The first of the places that begins at `pos`.
fn find_start(places: &Vec<(usize, usize)>, pos: usize, ps: Ghost<Seq<Spot>>) -> (r: Option<usize>)
    requires
        ps@.len() == places@.len(),
        forall|i: int|
            0 <= i < places@.len() ==> (#[trigger] ps@[i]).at == places@[i].0 && ps@[i].len
                == places@[i].1,
    ensures
        match r {
            Some(k) => starting(ps@, pos as int) == Some(k as int),
            None => starting(ps@, pos as int) is None,
        },
        r matches Some(k) ==> k < places@.len() && places@[k as int].0 == pos,
{
    assert(ps@.take(0) =~= Seq::empty());
    for i in 0..places.len()
        invariant
            ps@.len() == places@.len(),
            forall|i: int|
                0 <= i < places@.len() ==> (#[trigger] ps@[i]).at == places@[i].0 && ps@[i].len
                    == places@[i].1,
            starting(ps@.take(i as int), pos as int) is None,
    {
        assert(ps@.take(i + 1).drop_last() =~= ps@.take(i as int));
        assert(ps@.take(i + 1).last() == ps@[i as int]);
        if places[i].0 == pos {
            proof {
                lemma_starting(ps@, pos as int, i as int);
            }
            return Some(i);
        }
    }
    assert(ps@.take(places@.len() as int) =~= ps@);
    None
}

/// The first place that begins at `pos` is the first in any longer list too.
proof fn lemma_starting(ps: Seq<Spot>, pos: int, i: int)
    requires
        0 <= i < ps.len(),
        ps[i].at == pos,
        starting(ps.take(i), pos) is None,
    ensures
        starting(ps, pos) == Some(i),
    decreases ps.len(),
{
    if i < ps.len() - 1 {
        assert(ps.drop_last().take(i) =~= ps.take(i));
        lemma_starting(ps.drop_last(), pos, i);
    } else {
        assert(ps.drop_last() =~= ps.take(i));
    }
}

/// A text that occurs once stands where it is found first.
proof fn lemma_once(s: Seq<char>, needle: Seq<char>)
    requires
        occurrences(s, needle, 0) == 1,
    ensures
        find_from(s, needle, 0) matches Some(i) && 0 <= i && i + needle.len() <= s.len(),
        needle.len() == 0 ==> s.len() == 0,
{
    crate::text::lemma_find_from(s, needle, 0);
    if needle.len() == 0 {
        assert(s.subrange(0, 0) =~= needle);
        assert(occurs_at(s, needle, 0));
    }
}

impl Workspace {
    /// Replaces several pieces of a text at once.
    ///
    /// Every edit is matched against the text as it was rather than against earlier edits, and has to
    /// match exactly one place. Where one does not, or two edits share a place, nothing is replaced.
    #[verifier::spinoff_prover]
    pub fn edit(original: &str, path: &str, edits: &[Edit]) -> (r: Result<String, WorkspaceError>)
        requires
            original@.len() < usize::MAX,
        ensures
            edited(original@, path@, edits@, r),
    {
        let chars = chars_of(original);
        let ghost ps = spots(original@, edits@);
        let mut places: Vec<(usize, usize)> = Vec::new();
        let count: usize = edits.len();
        for i in 0..count
            invariant
                chars@ == original@,
                original@.len() < usize::MAX,
                count == edits@.len(),
                ps == spots(original@, edits@),
                places@.len() == i,
                forall|j: int| 0 <= j < i ==> matches_once(original@, #[trigger] edits@[j]),
                forall|j: int|
                    0 <= j < i ==> (#[trigger] ps[j]).at == places@[j].0 && ps[j].len == places@[j].1
                        && ps[j].at + ps[j].len <= original@.len() && (ps[j].len == 0 ==> original@.len()
                        == 0),
        {
            let old = chars_of(edits[i].old.as_str());
            let n: usize = count_occurrences(&chars, &old);
            if n == 0 {
                return Err(WorkspaceError::NoMatch { edit: i + 1, path: owned(path) });
            }
            if n > 1 {
                return Err(
                    WorkspaceError::Ambiguous { edit: i + 1, places: n, path: owned(path) },
                );
            }
            proof {
                lemma_once(original@, edits@[i as int].old@);
            }
            let at: usize = match find(chars.as_slice(), old.as_slice(), 0) {
                Some(at) => at,
                None => 0,
            };
            places.push((at, old.len()));
        }
        for second in 0..count
            invariant
                count == edits@.len(),
                places@.len() == count,
                ps == spots(original@, edits@),
                forall|j: int| 0 <= j < count ==> matches_once(original@, #[trigger] edits@[j]),
                forall|j: int|
                    0 <= j < count ==> (#[trigger] ps[j]).at == places@[j].0 && ps[j].len
                        == places@[j].1 && ps[j].at + ps[j].len <= original@.len(),
                original@.len() < usize::MAX,
                apart_until(ps, 0, second as int),
        {
            for first in 0..second
                invariant
                    second < count,
                    count == edits@.len(),
                        places@.len() == count,
                    ps == spots(original@, edits@),
                    forall|j: int| 0 <= j < count ==> matches_once(original@, #[trigger] edits@[j]),
                    forall|j: int|
                        0 <= j < count ==> (#[trigger] ps[j]).at == places@[j].0 && ps[j].len
                            == places@[j].1 && ps[j].at + ps[j].len <= original@.len(),
                    original@.len() < usize::MAX,
                    apart_until(ps, first as int, second as int),
            {
                let (a, a_len) = places[first];
                let (b, b_len) = places[second];
                assert(ps[first as int].at == a && ps[second as int].at == b);
                if a == b || (a + a_len > b && b + b_len > a) {
                    return Err(
                        WorkspaceError::Overlap {
                            first: first + 1,
                            second: second + 1,
                            path: owned(path),
                        },
                    );
                }
            }
        }
        let mut out = String::new();
        let mut pos: usize = 0;
        let end: usize = chars.len();
        loop
            invariant
                chars@ == original@,
                end == chars@.len(),
                end < usize::MAX,
                pos <= end,
                count == edits@.len(),
                places@.len() == count,
                ps == spots(original@, edits@),
                forall|j: int| 0 <= j < count ==> matches_once(original@, #[trigger] edits@[j]),
                forall|j: int|
                    0 <= j < count ==> (#[trigger] ps[j]).at == places@[j].0 && ps[j].len
                        == places@[j].1 && ps[j].at + ps[j].len <= original@.len(),
                apart_until(ps, 0, count as int),
                out@ + rewritten(original@, ps, pos as int) == rewritten(original@, ps, 0),
            decreases end - pos,
        {
            let ghost before = out@;
            match find_start(&places, pos, Ghost(ps)) {
                Some(k) => {
                    assert(ps[k as int].new == edits@[k as int].new@);
                    assert(ps[k as int].at == pos);
                    out.append(edits[k].new.as_str());
                    let len: usize = places[k].1;
                    if len == 0 {
                        assert(rewritten(original@, ps, pos as int) =~= ps[k as int].new);
                        return Ok(out);
                    }
                    assert(before + rewritten(original@, ps, pos as int) =~= out@ + rewritten(
                        original@,
                        ps,
                        pos + len,
                    ));
                    pos = pos + len;
                },
                None => {
                    if pos == end {
                        assert(rewritten(original@, ps, pos as int) =~= Seq::empty());
                        return Ok(out);
                    }
                    out.push(chars[pos]);
                    assert(before + rewritten(original@, ps, pos as int) =~= out@ + rewritten(
                        original@,
                        ps,
                        pos + 1,
                    ));
                    pos = pos + 1;
                },
            }
        }
    }
}

/// What is said of edits that were applied.
pub fn applied(path: &str, edits: usize) -> (r: String)
    ensures
        r@ == "Applied "@ + decimal(edits as nat) + " edit(s) to "@ + path@ + "."@,
{
    let mut out = owned("Applied ");
    out.append(decimal_of(edits as u64).as_str());
    out.append(" edit(s) to ");
    out.append(path);
    out.append(".");
    out
}

// ---------------------------------------------------------------------------------------------
// Laws of editing
// ---------------------------------------------------------------------------------------------

/// Where no place begins, the text stays as it is.
proof fn lemma_untouched(original: Seq<char>, ps: Seq<Spot>, pos: int, to: int)
    requires
        0 <= pos <= to <= original.len(),
        forall|i: int| pos <= i < to ==> #[trigger] starting(ps, i) is None,
    ensures
        rewritten(original, ps, pos) == original.subrange(pos, to) + rewritten(original, ps, to),
    decreases to - pos,
{
    if pos < to {
        lemma_untouched(original, ps, pos + 1, to);
        assert(starting(ps, pos) is None);
        assert(original.subrange(pos, to) =~= seq![original[pos]] + original.subrange(pos + 1, to));
        assert(rewritten(original, ps, pos) =~= original.subrange(pos, to) + rewritten(
            original,
            ps,
            to,
        ));
    } else {
        assert(rewritten(original, ps, pos) =~= original.subrange(pos, to) + rewritten(
            original,
            ps,
            to,
        ));
    }
}

/// A single edit replaces the place that it matches, and leaves everything before and behind it as
/// it was.
pub proof fn law_an_edit_replaces_its_place(original: Seq<char>, e: Edit)
    requires
        matches_once(original, e),
    ensures
        rewritten(original, spots(original, seq![e]), 0) == original.take(spot(original, e).at)
            + e.new@ + original.skip(spot(original, e).at + e.old@.len()),
{
    let ps = spots(original, seq![e]);
    let at = spot(original, e).at;
    let len = e.old@.len() as int;
    lemma_once(original, e.old@);
    assert(ps =~= seq![spot(original, e)]);
    assert(ps.drop_last() =~= Seq::empty());
    assert forall|i: int| i != at implies #[trigger] starting(ps, i) is None by {
        assert(starting(ps.drop_last(), i) is None);
    }
    assert(starting(ps.drop_last(), at) is None);
    assert(starting(ps, at) == Some(0int));
    lemma_untouched(original, ps, 0, at);
    assert(original.subrange(0, at) =~= original.take(at));
    if len > 0 {
        lemma_untouched(original, ps, at + len, original.len() as int);
        assert(rewritten(original, ps, original.len() as int) =~= Seq::empty());
        assert(original.subrange(at + len, original.len() as int) =~= original.skip(at + len));
        assert(rewritten(original, ps, 0) =~= original.take(at) + e.new@ + original.skip(at + len));
    } else {
        assert(original.skip(at + len) =~= Seq::empty());
        assert(rewritten(original, ps, 0) =~= original.take(at) + e.new@ + original.skip(at + len));
    }
}

/// Whether places that stand at different positions of a list have nothing in common.
pub open spec fn all_apart(ps: Seq<Spot>) -> bool {
    forall|a: int, b: int|
        #![trigger ps[a], ps[b]]
        0 <= a < ps.len() && 0 <= b < ps.len() && a != b ==> apart(ps[a], ps[b])
}

/// A place that begins at `pos` is found where there is one.
proof fn lemma_found(ps: Seq<Spot>, pos: int)
    ensures
        match starting(ps, pos) {
            Some(k) => 0 <= k < ps.len() && ps[k].at == pos,
            None => forall|i: int| 0 <= i < ps.len() ==> (#[trigger] ps[i]).at != pos,
        },
    decreases ps.len(),
{
    if ps.len() > 0 {
        lemma_found(ps.drop_last(), pos);
        match starting(ps.drop_last(), pos) {
            Some(k) => {
                assert(ps.drop_last()[k] == ps[k]);
            },
            None => {
                assert forall|i: int| starting(ps, pos) is None && 0 <= i < ps.len() implies (
                #[trigger] ps[i]).at != pos by {
                    if i < ps.len() - 1 {
                        assert(ps.drop_last()[i] == ps[i]);
                    }
                }
            },
        }
    }
}

/// The order in which edits are given does not matter: lists with the same places, of which no two
/// have anything in common, give the same text.
pub proof fn law_the_order_of_edits_does_not_matter(
    original: Seq<char>,
    ps: Seq<Spot>,
    qs: Seq<Spot>,
    pos: int,
)
    requires
        all_apart(ps),
        all_apart(qs),
        forall|p: Spot| ps.contains(p) <==> qs.contains(p),
        0 <= pos,
    ensures
        rewritten(original, ps, pos) == rewritten(original, qs, pos),
    decreases original.len() - pos,
{
    lemma_found(ps, pos);
    lemma_found(qs, pos);
    match starting(ps, pos) {
        Some(k) => {
            assert(ps.contains(ps[k]));
            assert(qs.contains(ps[k]));
            let j = choose|j: int| 0 <= j < qs.len() && qs[j] == ps[k];
            match starting(qs, pos) {
                Some(m) => {
                    if m != j {
                        assert(apart(qs[m], qs[j]));
                    }
                    assert(qs[m] == ps[k]);
                },
                None => {
                    assert(qs[j].at != pos);
                },
            }
            if ps[k].len > 0 && pos + ps[k].len <= original.len() {
                law_the_order_of_edits_does_not_matter(original, ps, qs, pos + ps[k].len);
            }
        },
        None => {
            match starting(qs, pos) {
                Some(m) => {
                    assert(qs.contains(qs[m]));
                    assert(ps.contains(qs[m]));
                    let j = choose|j: int| 0 <= j < ps.len() && ps[j] == qs[m];
                    assert(ps[j].at != pos);
                },
                None => {},
            }
            if pos < original.len() {
                law_the_order_of_edits_does_not_matter(original, ps, qs, pos + 1);
            }
        },
    }
}

/// Whether a text stands in another at one place and nowhere else.
pub open spec fn stands_once(s: Seq<char>, needle: Seq<char>, at: int) -> bool {
    &&& occurs_at(s, needle, at)
    &&& forall|j: int| #[trigger] occurs_at(s, needle, j) ==> j == at
}

/// A text that stands at one place only matches once, there.
proof fn lemma_stands_once(original: Seq<char>, e: Edit, at: int)
    requires
        e.old@.len() > 0,
        stands_once(original, e.old@, at),
    ensures
        matches_once(original, e),
        spot(original, e) == (Spot { at, len: e.old@.len() as int, new: e.new@ }),
{
    crate::text::lemma_find_from(original, e.old@, 0);
    crate::text::lemma_find_from(original, e.old@, at + e.old@.len());
    assert(find_from(original, e.old@, 0) == Some(at));
    if find_from(original, e.old@, at + e.old@.len()) is Some {
        let j = find_from(original, e.old@, at + e.old@.len())->0;
        assert(occurs_at(original, e.old@, j));
    }
    assert(occurrences(original, e.old@, at + e.old@.len()) == 0);
}

/// An edit of a text that stands at one place puts the new text there, and leaves what stands before it
/// and behind it as it was.
pub proof fn law_one_edit_changes_its_place_only(
    original: &str,
    path: &str,
    edits: &[Edit],
    r: Result<String, WorkspaceError>,
    before: Seq<char>,
    after: Seq<char>,
)
    requires
        call_ensures(Workspace::edit, (original, path, edits), r),
        original@.len() < usize::MAX,
        edits@.len() == 1,
        edits@[0].old@.len() > 0,
        original@ == before + edits@[0].old@ + after,
        stands_once(original@, edits@[0].old@, before.len() as int),
    ensures
        r matches Ok(text) && text@ == before + edits@[0].new@ + after,
{
    let e = edits@[0];
    lemma_stands_once(original@, e, before.len() as int);
    assert(edits@ =~= seq![e]);
    law_an_edit_replaces_its_place(original@, e);
    assert(original@.take(before.len() as int) =~= before);
    assert(original@.skip((before.len() + e.old@.len()) as int) =~= after);
}

/// Two edits of texts that each stand at one place, apart from each other, both apply to the text as it
/// was, whichever of them is given first: what the first puts in is not searched for the second.
pub proof fn law_two_edits_change_their_places_only(
    original: &str,
    path: &str,
    edits: &[Edit],
    r: Result<String, WorkspaceError>,
    a: Seq<char>,
    b: Seq<char>,
    c: Seq<char>,
    x: int,
    y: int,
)
    requires
        call_ensures(Workspace::edit, (original, path, edits), r),
        original@.len() < usize::MAX,
        edits@.len() == 2,
        (x == 0 && y == 1) || (x == 1 && y == 0),
        edits@[x].old@.len() > 0,
        edits@[y].old@.len() > 0,
        original@ == a + edits@[x].old@ + b + edits@[y].old@ + c,
        stands_once(original@, edits@[x].old@, a.len() as int),
        stands_once(
            original@,
            edits@[y].old@,
            (a.len() + edits@[x].old@.len() + b.len()) as int,
        ),
    ensures
        r matches Ok(text) && text@ == a + edits@[x].new@ + b + edits@[y].new@ + c,
{
    let o = original@;
    let e = edits@[x];
    let f = edits@[y];
    let p = a.len() as int;
    let q = (a.len() + e.old@.len() + b.len()) as int;
    let ps = spots(o, edits@);
    lemma_stands_once(o, e, p);
    lemma_stands_once(o, f, q);
    assert(ps[x] == (Spot { at: p, len: e.old@.len() as int, new: e.new@ }));
    assert(ps[y] == (Spot { at: q, len: f.old@.len() as int, new: f.new@ }));
    assert(apart(ps[x], ps[y]) && apart(ps[y], ps[x]));
    assert(forall|i: int| 0 <= i < 2 ==> matches_once(o, #[trigger] edits@[i]));
    assert(r is Ok);
    assert forall|i: int| i != p && i != q implies #[trigger] starting(ps, i) is None by {
        lemma_found(ps, i);
    }
    lemma_found(ps, p);
    lemma_found(ps, q);
    assert(starting(ps, p) == Some(x));
    assert(starting(ps, q) == Some(y));
    let p2 = p + e.old@.len();
    let q2 = q + f.old@.len();
    lemma_untouched(o, ps, 0, p);
    lemma_untouched(o, ps, p2, q);
    lemma_untouched(o, ps, q2, o.len() as int);
    assert(o.subrange(0, p) =~= a);
    assert(o.subrange(p2, q) =~= b);
    assert(o.subrange(q2, o.len() as int) =~= c);
    assert(rewritten(o, ps, o.len() as int) =~= Seq::empty());
    assert(rewritten(o, ps, q2) =~= c);
    assert(rewritten(o, ps, q) =~= f.new@ + c);
    assert(rewritten(o, ps, p2) =~= b + (f.new@ + c));
    assert(rewritten(o, ps, p) =~= e.new@ + (b + (f.new@ + c)));
    assert(rewritten(o, ps, 0) =~= a + (e.new@ + (b + (f.new@ + c))));
    assert(a + (e.new@ + (b + (f.new@ + c))) =~= a + e.new@ + b + f.new@ + c);
}

/// Without edits a text stays as it was.
pub proof fn law_no_edits_change_nothing(
    original: &str,
    path: &str,
    edits: &[Edit],
    r: Result<String, WorkspaceError>,
)
    requires
        call_ensures(Workspace::edit, (original, path, edits), r),
        original@.len() < usize::MAX,
        edits@.len() == 0,
    ensures
        r matches Ok(text) && text@ == original@,
{
    let ps = spots(original@, edits@);
    assert forall|i: int| #[trigger] starting(ps, i) is None by {
        lemma_found(ps, i);
    }
    lemma_untouched(original@, ps, 0, original@.len() as int);
    assert(rewritten(original@, ps, original@.len() as int) =~= Seq::empty());
    assert(original@.subrange(0, original@.len() as int) =~= original@);
    assert(rewritten(original@, ps, 0) =~= original@);
}

/// Nothing is written where any edit is of a text that does not stand in the file, or that stands in it at
/// more places than one; the file and the edit are told.
pub proof fn law_every_edit_has_to_match_once(
    original: &str,
    path: &str,
    edits: &[Edit],
    r: Result<String, WorkspaceError>,
    i: int,
    j: int,
    k: int,
)
    requires
        call_ensures(Workspace::edit, (original, path, edits), r),
        original@.len() < usize::MAX,
        0 <= i < edits@.len(),
        edits@[i].old@.len() > 0,
    ensures
        (forall|p: int| !#[trigger] occurs_at(original@, edits@[i].old@, p)) ==> r is Err,
        occurs_at(original@, edits@[i].old@, j) && occurs_at(original@, edits@[i].old@, k) && j
            + edits@[i].old@.len() <= k ==> r is Err,
        r matches Err(e) ==> crate::text::contains(e.words(), path@),
{
    let o = original@;
    let old = edits@[i].old@;
    crate::text::lemma_find_from(o, old, 0);
    if forall|p: int| !#[trigger] occurs_at(o, old, p) {
        assert(find_from(o, old, 0) is None);
        assert(!matches_once(o, edits@[i]));
    }
    if occurs_at(o, old, j) && occurs_at(o, old, k) && j + old.len() <= k {
        let first = find_from(o, old, 0)->0;
        assert(first <= j);
        crate::text::lemma_find_from(o, old, first + old.len());
        let second = find_from(o, old, first + old.len())->0;
        assert(occurs_at(o, old, second));
        assert(occurrences(o, old, first + old.len()) >= 1);
        assert(occurrences(o, old, 0) == 1 + occurrences(o, old, first + old.len()));
        assert(!matches_once(o, edits@[i]));
    }
    if r is Err {
        lemma_path_told(r->Err_0, path@);
    }
}

/// What is wrong with an edit is told with the file.
proof fn lemma_path_told(e: WorkspaceError, path: Seq<char>)
    requires
        match e {
            WorkspaceError::Climbs(p) => p@ == path,
            WorkspaceError::Leaves(p) => p@ == path,
            WorkspaceError::NoMatch { edit, path: p } => p@ == path,
            WorkspaceError::Ambiguous { edit, places, path: p } => p@ == path,
            WorkspaceError::Overlap { first, second, path: p } => p@ == path,
        },
    ensures
        crate::text::contains(e.words(), path),
{
    match e {
        WorkspaceError::Climbs(p) => {
            crate::text::lemma_parts("'"@, path, "' must stay inside the workspace"@);
        },
        WorkspaceError::Leaves(p) => {
            crate::text::lemma_parts("'"@, path, "' resolves outside the workspace"@);
        },
        WorkspaceError::NoMatch { edit, path: p } => {
            crate::text::lemma_added(
                "edit "@ + decimal(edit as nat) + " did not match anything in "@,
                path,
            );
        },
        WorkspaceError::Ambiguous { edit, places, path: p } => {
            crate::text::lemma_parts(
                "edit "@ + decimal(edit as nat) + " matches "@ + decimal(places as nat)
                    + " places in "@,
                path,
                "; include more surrounding text to make it unique"@,
            );
        },
        WorkspaceError::Overlap { first, second, path: p } => {
            crate::text::lemma_added(
                "edits "@ + decimal(first as nat) + " and "@ + decimal(second as nat)
                    + " overlap in "@,
                path,
            );
        },
    }
}

// ---------------------------------------------------------------------------------------------
// Laws of paths and writing
// ---------------------------------------------------------------------------------------------

/// A file by one name lies in the workspace under that name, whether a slash stands before the name or
/// not.
pub proof fn law_a_name_lies_in_the_workspace(
    w: &Workspace,
    path: &str,
    r: Result<String, WorkspaceError>,
    name: Seq<char>,
)
    requires
        call_ensures(Workspace::resolve, (w, path), r),
        path@ == name || path@ == seq!['/'] + name,
        name.len() > 0,
        !name.contains('/'),
        name != "."@,
        name != ".."@,
        w.root_view().len() > 0 && w.root_view().last() != '/',
    ensures
        r matches Ok(full) && full@ == w.root_view() + "/"@ + name,
{
    let class = Class::Only('/');
    assert forall|i: int| 0 <= i < name.len() implies !class.has(#[trigger] name[i]) by {
        assert(name.contains(name[i]));
    }
    assert(!class.has(name[0]));
    assert((seq!['/'] + name).drop_first() =~= name);
    reveal_with_fuel(strip_front, 3);
    assert(strip_front(path@, class) == name);
    crate::text::lemma_one_piece(name, class);
    let names = names_in(path@);
    assert(names == seq![name]);
    assert(names.drop_last() =~= Seq::empty());
    reveal_with_fuel(below, 2);
    if climbs(path@) {
        let k = choose|k: int| 0 <= k < names.len() && names[k] == ".."@;
        assert(names[k] == name);
    }
}

/// A name behind a path leads one step further than the path does.
pub proof fn law_a_path_goes_step_by_step(root: Seq<char>, path: Seq<char>, name: Seq<char>)
    requires
        path.len() > 0 && path[0] != '/',
        name.len() > 0,
        !name.contains('/'),
        name != "."@,
    ensures
        resolved(root, path + seq!['/'] + name) == under(resolved(root, path), name),
        climbs(path + seq!['/'] + name) <==> climbs(path) || name == ".."@,
{
    let class = Class::Only('/');
    let long = path + seq!['/'] + name;
    assert(long[0] == path[0]);
    reveal_with_fuel(strip_front, 2);
    assert(strip_front(path, class) == path);
    assert(strip_front(long, class) == long);
    assert forall|i: int| 0 <= i < name.len() implies !class.has(#[trigger] name[i]) by {
        assert(name.contains(name[i]));
    }
    crate::text::law_a_separator_parts_the_pieces(path, '/', name, class);
    crate::text::lemma_one_piece(name, class);
    let names = names_in(path);
    assert(names_in(long) =~= names.push(name));
    assert(names_in(long).drop_last() =~= names);
    assert(names_in(long).last() == name);
    if climbs(path) {
        let k = choose|k: int| 0 <= k < names.len() && names[k] == ".."@;
        assert(names_in(long)[k] == ".."@);
    }
    if name == ".."@ {
        assert(names_in(long)[names.len() as int] == ".."@);
    }
    if climbs(long) {
        let k = choose|k: int| 0 <= k < names_in(long).len() && names_in(long)[k] == ".."@;
        if k < names.len() {
            assert(names[k] == ".."@);
        }
    }
}

/// A path that climbs is refused wherever in it the step up stands: at its beginning, at its end, or
/// between two others.
pub proof fn law_a_climbing_path_is_refused(
    w: &Workspace,
    path: &str,
    content: &str,
    r: Result<Writing, WorkspaceError>,
    a: Seq<char>,
    b: Seq<char>,
)
    requires
        call_ensures(Workspace::write, (w, path, content), r),
        a.len() > 0 && a[0] != '/',
        ({
            ||| path@ == ".."@
            ||| path@ == ".."@ + seq!['/'] + b
            ||| path@ == a + seq!['/'] + ".."@
            ||| path@ == a + seq!['/'] + ".."@ + seq!['/'] + b
        }),
    ensures
        r matches Err(e) && crate::text::contains(e.words(), path@),
{
    let class = Class::Only('/');
    let up = ".."@;
    reveal_strlit("..");
    assert(up[0] == '.' && up[1] == '.' && up.len() == 2);
    crate::text::lemma_one_piece(up, class);
    crate::text::law_a_separator_parts_the_pieces(up, '/', b, class);
    crate::text::law_a_separator_parts_the_pieces(a, '/', up, class);
    crate::text::law_a_separator_parts_the_pieces(a + seq!['/'] + up, '/', b, class);
    reveal_with_fuel(strip_front, 2);
    assert(path@[0] == a[0] || path@[0] == '.');
    assert(strip_front(path@, class) == path@);
    let names = names_in(path@);
    let here = pieces(a, class);
    let there = pieces(b, class);
    if path@ == up {
        assert(names[0] == up);
    } else if path@ == up + seq!['/'] + b {
        assert(names == seq![up] + there);
        assert(names[0] == up);
    } else if path@ == a + seq!['/'] + up {
        assert(names == here + seq![up]);
        assert(names[here.len() as int] == up);
    } else {
        assert(names == here + seq![up] + there);
        assert(names[here.len() as int] == up);
    }
    assert(names.contains(up));
    lemma_path_told(r->Err_0, path@);
}

/// What is written goes where the path leads, and what is said of it names the path and the number of
/// lines.
pub proof fn law_what_is_written_is_told(
    w: &Workspace,
    path: &str,
    content: &str,
    r: Result<Writing, WorkspaceError>,
    full: Result<String, WorkspaceError>,
)
    requires
        call_ensures(Workspace::write, (w, path, content), r),
        call_ensures(Workspace::resolve, (w, path), full),
    ensures
        r is Ok <==> full is Ok,
        r matches Ok(writing) ==> {
            &&& full matches Ok(place) && writing.full@ == place@
            &&& crate::text::contains(writing.said@, path@)
            &&& begins(writing.said@, "Wrote "@ + decimal(line_count(content@)))
        },
{
    if r is Ok {
        let a = "Wrote "@ + decimal(line_count(content@));
        let b = a + " lines to "@;
        crate::text::lemma_added(a, " lines to "@);
        crate::text::lemma_added(b, path@);
        crate::text::lemma_grow(b, path@, a);
        crate::text::lemma_grow(b + path@, "."@, a);
        crate::text::lemma_grow(b + path@, "."@, path@);
    }
}

/// Lines are counted by what ends them: nothing has no line, a text without a newline is one, and behind
/// a newline counting begins anew.
pub proof fn law_lines_are_counted(a: Seq<char>, b: Seq<char>)
    ensures
        line_count(Seq::empty()) == 0,
        b.len() > 0 && !b.contains('\n') ==> line_count(b) == 1,
        line_count(a + seq!['\n'] + b) == line_count(a + seq!['\n']) + line_count(b),
        !a.contains('\n') ==> line_count(a + seq!['\n']) == 1,
{
    lemma_newlines_add(a + seq!['\n'], b);
    lemma_newlines_add(a, seq!['\n']);
    assert(seq!['\n'].drop_last() =~= Seq::empty());
    reveal_with_fuel(newlines, 2);
    assert(newlines(seq!['\n']) == 1);
    lemma_no_newlines(a);
    lemma_no_newlines(b);
    let all = a + seq!['\n'] + b;
    if b.len() == 0 {
        assert(all =~= a + seq!['\n']);
    } else {
        assert(all.last() == b.last());
    }
    assert((a + seq!['\n']).last() == '\n');
}

proof fn lemma_newlines_add(a: Seq<char>, b: Seq<char>)
    ensures
        newlines(a + b) == newlines(a) + newlines(b),
    decreases b.len(),
{
    if b.len() == 0 {
        assert(a + b =~= a);
    } else {
        lemma_newlines_add(a, b.drop_last());
        assert((a + b).drop_last() =~= a + b.drop_last());
    }
}

proof fn lemma_no_newlines(s: Seq<char>)
    ensures
        !s.contains('\n') ==> newlines(s) == 0,
    decreases s.len(),
{
    if s.len() > 0 && !s.contains('\n') {
        assert(!s.drop_last().contains('\n')) by {
            if s.drop_last().contains('\n') {
                let k = choose|k: int| 0 <= k < s.drop_last().len() && s.drop_last()[k] == '\n';
                assert(s[k] == '\n');
            }
        }
        assert(s[s.len() - 1] != '\n') by {
            assert(s.contains(s[s.len() - 1]));
        }
        lemma_no_newlines(s.drop_last());
    }
}

/// A received file is saved in the inbox under its own name, in which letters, digits, dots, lines and
/// dashes stay where they are and everything else becomes a line; or as an attachment where nothing is
/// left of the name.
pub proof fn law_a_received_file_keeps_its_name(
    w: &Workspace,
    filename: &str,
    r: Result<Destination, WorkspaceError>,
    i: int,
)
    requires
        call_ensures(Workspace::save_incoming, (w, filename), r),
        r is Ok,
        0 <= i < filename@.len(),
    ensures
        begins(r->Ok_0.relative@, "inbox/"@),
        r->Ok_0.full@ == resolved(w.root_view(), r->Ok_0.relative@),
        r->Ok_0.relative@ == "inbox/"@ + "attachment"@ || {
            let name = r->Ok_0.relative@.skip(6);
            &&& name.len() == filename@.len()
            &&& crate::text::ascii_alphanumeric(filename@[i]) || filename@[i] == '.' || filename@[i]
                == '_' || filename@[i] == '-' ==> name[i] == filename@[i]
            &&& name[i] == filename@[i] || name[i] == '_'
            &&& filename@[i] == '/' ==> name[i] == '_'
        },
{
    reveal_strlit("inbox/");
    let name = saved_name(filename@);
    crate::text::lemma_added("inbox/"@, name);
    assert(("inbox/"@ + name).skip(6) =~= name);
}

/// A room works in a directory of its own in the workspace, named after the room.
pub proof fn law_a_room_works_in_its_own_directory(w: &Workspace, room_id: &str, r: Workspace)
    requires
        call_ensures(Workspace::scoped, (w, room_id), r),
        w.root_view().len() > 0 && w.root_view().last() != '/',
    ensures
        r.root_view() == w.root_view() + "/"@ + key_of_room(room_id@),
{
}

/// A path is let pass exactly where its place, with links followed, is the workspace or lies below it.
/// What cannot be told is not let pass, and where nothing is there yet nothing stands in the way.
pub proof fn law_only_what_lies_inside_is_let_pass(
    root: &str,
    path: &str,
    probe: &Probe,
    r: Result<(), WorkspaceError>,
)
    requires
        call_ensures(Workspace::confine, (root, path, probe), r),
        root@.len() > 0 && root@.last() != '/',
    ensures
        *probe matches Probe::Real(place) ==> (r is Ok <==> place@ == root@ || begins(
            place@,
            root@ + "/"@,
        )),
        *probe matches Probe::Dangling(place) ==> (r is Ok <==> place@ == root@ || begins(
            place@,
            root@ + "/"@,
        )),
        *probe == Probe::Lost ==> r is Err,
        *probe == Probe::Missing ==> r is Ok,
        r matches Err(e) ==> crate::text::contains(e.words(), path@),
{
    if r is Err {
        lemma_path_told(r->Err_0, path@);
    }
}

/// What is said of edits that were applied names the file and how many they were.
pub proof fn law_applied_edits_are_told(path: &str, edits: usize, r: String)
    requires
        call_ensures(applied, (path, edits), r),
    ensures
        begins(r@, "Applied "@ + decimal(edits as nat)),
        crate::text::contains(r@, path@),
{
    let a = "Applied "@ + decimal(edits as nat);
    let b = a + " edit(s) to "@;
    crate::text::lemma_added(a, " edit(s) to "@);
    crate::text::lemma_added(b, path@);
    crate::text::lemma_grow(b, path@, a);
    crate::text::lemma_grow(b + path@, "."@, a);
    crate::text::lemma_grow(b + path@, "."@, path@);
}

/// Which path and which edits are at fault can be read in the message.
pub proof fn law_what_is_wrong_in_a_workspace_is_told(e: &WorkspaceError, r: String)
    requires
        call_ensures(WorkspaceError::message, (e,), r),
    ensures
        *e matches WorkspaceError::Climbs(path) ==> crate::text::contains(r@, path@),
        *e matches WorkspaceError::Leaves(path) ==> crate::text::contains(r@, path@),
        *e matches WorkspaceError::NoMatch { edit, path } ==> crate::text::contains(
            r@,
            decimal(edit as nat),
        ) && crate::text::ends(r@, path@),
        *e matches WorkspaceError::Ambiguous { edit, places, path } ==> crate::text::contains(
            r@,
            decimal(edit as nat),
        ) && crate::text::contains(r@, decimal(places as nat)) && crate::text::contains(r@, path@),
        *e matches WorkspaceError::Overlap { first, second, path } ==> crate::text::contains(
            r@,
            decimal(first as nat),
        ) && crate::text::contains(r@, decimal(second as nat)) && crate::text::ends(r@, path@),
{
    match e {
        WorkspaceError::Climbs(path) => {
            crate::text::lemma_parts("'"@, path@, "' must stay inside the workspace"@);
        },
        WorkspaceError::Leaves(path) => {
            crate::text::lemma_parts("'"@, path@, "' resolves outside the workspace"@);
        },
        WorkspaceError::NoMatch { edit, path } => {
            let a = "edit "@ + decimal(*edit as nat);
            let b = a + " did not match anything in "@;
            crate::text::lemma_added("edit "@, decimal(*edit as nat));
            crate::text::lemma_grow(a, " did not match anything in "@, decimal(*edit as nat));
            crate::text::lemma_grow(b, path@, decimal(*edit as nat));
            crate::text::lemma_added(b, path@);
        },
        WorkspaceError::Ambiguous { edit, places, path } => {
            lemma_two_numbers("edit "@, *edit as nat, " matches "@, *places as nat, " places in "@, path@);
            let tail = "; include more surrounding text to make it unique"@;
            let s = "edit "@ + decimal(*edit as nat) + " matches "@ + decimal(*places as nat)
                + " places in "@ + path@;
            crate::text::lemma_grow(s, tail, decimal(*edit as nat));
            crate::text::lemma_grow(s, tail, decimal(*places as nat));
            crate::text::lemma_grow(s, tail, path@);
        },
        WorkspaceError::Overlap { first, second, path } => {
            lemma_two_numbers("edits "@, *first as nat, " and "@, *second as nat, " overlap in "@, path@);
        },
    }
}

/// Two numbers and a path can be read in what is put together of them.
proof fn lemma_two_numbers(
    head: Seq<char>,
    a: nat,
    middle: Seq<char>,
    b: nat,
    link: Seq<char>,
    path: Seq<char>,
)
    ensures
        ({
            let s = head + decimal(a) + middle + decimal(b) + link + path;
            &&& crate::text::contains(s, decimal(a))
            &&& crate::text::contains(s, decimal(b))
            &&& crate::text::contains(s, path)
            &&& crate::text::ends(s, path)
        }),
{
    let p = head + decimal(a);
    let q = p + middle;
    let t = q + decimal(b);
    let u = t + link;
    crate::text::lemma_added(head, decimal(a));
    crate::text::lemma_grow(p, middle, decimal(a));
    crate::text::lemma_grow(q, decimal(b), decimal(a));
    crate::text::lemma_added(q, decimal(b));
    crate::text::lemma_grow(t, link, decimal(a));
    crate::text::lemma_grow(t, link, decimal(b));
    crate::text::lemma_grow(u, path, decimal(a));
    crate::text::lemma_grow(u, path, decimal(b));
    crate::text::lemma_added(u, path);
}

} // verus!
