//! What the program is set up with: the configuration file, the environment, and the secrets.
use vstd::prelude::*;
use vstd::string::StringExecFns;

use crate::cron::{known_or, zone_or};
use crate::json::optional_text;
use crate::llm::optional_string;
use crate::outside::{known_zone, zone_exists};
use crate::text::{
    holds, owned, pieces, same, split, strip_front, strip_front_of, trim, trimmed, views, Class,
};

verus! {

/// The configuration.
#[derive(Debug, Clone)]
pub struct Config {
    pub homeserver: String,
    pub user_id: String,
    pub display_name: String,
    pub allowed_rooms: Vec<String>,
    pub allowed_senders: Vec<String>,
    pub admin_senders: Vec<String>,
    pub untrusted_senders: Vec<String>,
    pub context_window: usize,
    pub timezone: String,
    pub model: ModelConfig,
    pub limits: Limits,
    pub state_dir: String,
}

/// Which models are used.
#[derive(Debug, Clone)]
pub struct ModelConfig {
    pub chat: String,
    pub image: String,
    pub image_provider: String,
    pub reasoning_effort: String,
    pub embedding: String,
    pub embedding_dimensions: usize,
}

/// What is allowed at most.
#[derive(Debug, Clone)]
pub struct Limits {
    pub max_response_bytes: usize,
    pub tool_iterations: usize,
    pub request_timeout_s: u64,
    pub exec_timeout_s: u64,
    pub turn_timeout_s: u64,
    pub exec_memory_max: String,
    pub embed_batch: usize,
}

/// What is kept out of the configuration file.
#[derive(Clone)]
pub struct Secrets {
    pub matrix_password: String,
    pub session_encryption_key: String,
    pub openrouter_api_key: String,
    pub exa_api_key: Option<String>,
    pub fal_api_key: Option<String>,
}

/// How far a sender is trusted.
#[derive(Debug, Clone, Copy, PartialEq, Eq, Structural)]
pub enum TrustLevel {
    Admin,
    Trusted,
    Untrusted,
}

/// The variables of the environment.
pub struct Environment {
    pub vars: Vec<(String, String)>,
}

/// Why the program cannot be set up.
#[derive(Debug)]
pub enum ConfigError {
    NoRooms,
    NoSenders,
    AdminNotAllowed(String),
    UntrustedNotAllowed(String),
    AdminAndUntrusted(String),
    /// A variable that has to be set.
    Missing(String),
}

impl ConfigError {
    /// How the error reads.
    pub open spec fn words(self) -> Seq<char> {
        match self {
            ConfigError::NoRooms => "allowed_rooms is empty; the bot would join nothing"@,
            ConfigError::NoSenders => "allowed_senders is empty; nobody could address the bot"@,
            ConfigError::AdminNotAllowed(s) => "admin sender "@ + s@
                + " is not also an allowed sender"@,
            ConfigError::UntrustedNotAllowed(s) => "untrusted sender "@ + s@
                + " is not also an allowed sender"@,
            ConfigError::AdminAndUntrusted(s) => "sender "@ + s@
                + " cannot be both an admin and untrusted"@,
            ConfigError::Missing(key) => key@
                + " must be set in the environment and not be empty"@,
        }
    }

    /// How the error reads.
    pub fn message(&self) -> (r: String)
        ensures
            r@ == self.words(),
    {
        match self {
            ConfigError::NoRooms => owned("allowed_rooms is empty; the bot would join nothing"),
            ConfigError::NoSenders => owned(
                "allowed_senders is empty; nobody could address the bot",
            ),
            ConfigError::AdminNotAllowed(s) => {
                let mut out = owned("admin sender ");
                out.append(s.as_str());
                out.append(" is not also an allowed sender");
                out
            },
            ConfigError::UntrustedNotAllowed(s) => {
                let mut out = owned("untrusted sender ");
                out.append(s.as_str());
                out.append(" is not also an allowed sender");
                out
            },
            ConfigError::AdminAndUntrusted(s) => {
                let mut out = owned("sender ");
                out.append(s.as_str());
                out.append(" cannot be both an admin and untrusted");
                out
            },
            ConfigError::Missing(key) => {
                let mut out = key.clone();
                out.append(" must be set in the environment and not be empty");
                out
            },
        }
    }
}

// ---------------------------------------------------------------------------------------------
// Defaults
// ---------------------------------------------------------------------------------------------

/// How many messages of a room are kept as context.
pub const DEFAULT_CONTEXT_WINDOW: usize = 40;

/// The zone in which the bot lives.
pub const DEFAULT_TIMEZONE: &'static str = "Australia/Sydney";

/// Where the bot keeps its state.
pub const DEFAULT_STATE_DIR: &'static str = "/var/lib/merlin";

/// The models that are used where nothing is said.
pub open spec fn default_models(m: ModelConfig) -> bool {
    &&& m.chat@ == "z-ai/glm-5.3-flash"@
    &&& m.image@ == "meta/muse-image"@
    &&& m.image_provider@ == "openrouter"@
    &&& m.reasoning_effort@ == "medium"@
    &&& m.embedding@ == "google/gemini-embedding-001"@
    &&& m.embedding_dimensions == 768
}

/// The limits that hold where nothing is said.
pub open spec fn default_limits(l: Limits) -> bool {
    &&& l.max_response_bytes == 8388608
    &&& l.tool_iterations == 64
    &&& l.request_timeout_s == 120
    &&& l.exec_timeout_s == 60
    &&& l.turn_timeout_s == 600
    &&& l.exec_memory_max@ == "1G"@
    &&& l.embed_batch == 32
}

impl Default for ModelConfig {
    fn default() -> (r: Self)
        ensures
            default_models(r),
    {
        ModelConfig {
            chat: owned("z-ai/glm-5.3-flash"),
            image: owned("meta/muse-image"),
            image_provider: owned("openrouter"),
            reasoning_effort: owned("medium"),
            embedding: owned("google/gemini-embedding-001"),
            embedding_dimensions: 768,
        }
    }
}

impl Default for Limits {
    fn default() -> (r: Self)
        ensures
            default_limits(r),
    {
        Limits {
            max_response_bytes: 8388608,
            tool_iterations: 64,
            request_timeout_s: 120,
            exec_timeout_s: 60,
            turn_timeout_s: 600,
            exec_memory_max: owned("1G"),
            embed_batch: 32,
        }
    }
}

// ---------------------------------------------------------------------------------------------
// The environment
// ---------------------------------------------------------------------------------------------

/// What the variables hold.
pub open spec fn var_views(v: Seq<(String, String)>) -> Seq<(Seq<char>, Seq<char>)> {
    Seq::new(v.len(), |i: int| (v[i].0@, v[i].1@))
}

/// The value of the first variable with the given name.
pub open spec fn var(vars: Seq<(Seq<char>, Seq<char>)>, key: Seq<char>) -> Option<Seq<char>>
    decreases vars.len(),
{
    if vars.len() == 0 {
        None
    } else if vars[0].0 == key {
        Some(vars[0].1)
    } else {
        var(vars.drop_first(), key)
    }
}

/// The value of a variable that is set to something, without white space at its ends.
pub open spec fn set_var(vars: Seq<(Seq<char>, Seq<char>)>, key: Seq<char>) -> Option<Seq<char>> {
    match var(vars, key) {
        Some(v) => if trimmed(v).len() > 0 {
            Some(trimmed(v))
        } else {
            None
        },
        None => None,
    }
}

/// The entries of a list that is written with commas; empty ones are left out.
pub open spec fn entries(parts: Seq<Seq<char>>) -> Seq<Seq<char>>
    decreases parts.len(),
{
    if parts.len() == 0 {
        Seq::empty()
    } else if trimmed(parts.last()).len() > 0 {
        entries(parts.drop_last()).push(trimmed(parts.last()))
    } else {
        entries(parts.drop_last())
    }
}

/// The list that a variable holds, where it holds any entries.
pub open spec fn list_var(vars: Seq<(Seq<char>, Seq<char>)>, key: Seq<char>) -> Option<
    Seq<Seq<char>>,
> {
    match var(vars, key) {
        Some(v) => {
            let list = entries(pieces(v, Class::Only(',')));
            if list.len() > 0 {
                Some(list)
            } else {
                None
            }
        },
        None => None,
    }
}

impl Environment {
    /// What the variables hold.
    pub open spec fn all(&self) -> Seq<(Seq<char>, Seq<char>)> {
        var_views(self.vars@)
    }

    /// The value of a variable.
    pub fn get(&self, key: &str) -> (r: Option<&str>)
        ensures
            optional_text(r) == var(self.all(), key@),
    {
        let ghost all = self.all();
        assert(all.skip(0) =~= all);
        for i in 0..self.vars.len()
            invariant
                all == self.all(),
                var(all, key@) == var(all.skip(i as int), key@),
        {
            assert(all.skip(i as int).drop_first() =~= all.skip(i + 1));
            if same(self.vars[i].0.as_str(), key) {
                return Some(self.vars[i].1.as_str());
            }
        }
        None
    }

    /// The value of a variable that is set to something.
    pub fn opt(&self, key: &str) -> (r: Option<String>)
        ensures
            optional_string(r) == set_var(self.all(), key@),
    {
        match self.get(key) {
            Some(v) => {
                let value = trim(v);
                if value.unicode_len() > 0 {
                    Some(owned(value))
                } else {
                    None
                }
            },
            None => None,
        }
    }

    /// The value of a variable that has to be set to something.
    pub fn req(&self, key: &str) -> (r: Result<String, ConfigError>)
        ensures
            match r {
                Ok(v) => set_var(self.all(), key@) == Some(v@),
                Err(e) => set_var(self.all(), key@) is None && (e matches ConfigError::Missing(k)
                    && k@ == key@),
            },
    {
        match self.opt(key) {
            Some(v) => Ok(v),
            None => Err(ConfigError::Missing(owned(key))),
        }
    }

    /// The list that a variable holds, where it holds any entries.
    pub fn list_from_env(&self, key: &str) -> (r: Option<Vec<String>>)
        ensures
            match r {
                Some(list) => list_var(self.all(), key@) == Some(views(list@)),
                None => list_var(self.all(), key@) is None,
            },
    {
        let raw = match self.get(key) {
            Some(v) => v,
            None => {
                return None;
            },
        };
        let parts = split(raw, &Class::Only(','));
        let ghost all = views(parts@);
        let mut out: Vec<String> = Vec::new();
        assert(all.take(0) =~= Seq::empty());
        assert(views(out@) =~= Seq::empty());
        for i in 0..parts.len()
            invariant
                all == views(parts@),
                views(out@) == entries(all.take(i as int)),
        {
            let ghost before = views(out@);
            assert(all.take(i + 1).drop_last() =~= all.take(i as int));
            assert(all.take(i + 1).last() == parts@[i as int]@);
            let item = trim(parts[i].as_str());
            if item.unicode_len() > 0 {
                let kept = owned(item);
                out.push(kept);
                assert(views(out@) =~= before.push(kept@));
            }
        }
        assert(all.take(parts@.len() as int) =~= all);
        assert(views(out@).len() == out@.len());
        if out.len() == 0 {
            None
        } else {
            Some(out)
        }
    }
}

// ---------------------------------------------------------------------------------------------
// The configuration
// ---------------------------------------------------------------------------------------------

/// A list, or the one that overrides it.
pub open spec fn overridden(list: Seq<Seq<char>>, other: Option<Seq<Seq<char>>>) -> Seq<Seq<char>> {
    match other {
        Some(o) => o,
        None => list,
    }
}

/// The first of a list that is, or is not, in another.
pub open spec fn first_where(list: Seq<Seq<char>>, other: Seq<Seq<char>>, inside: bool) -> Option<
    Seq<char>,
>
    decreases list.len(),
{
    if list.len() == 0 {
        None
    } else if other.contains(list[0]) == inside {
        Some(list[0])
    } else {
        first_where(list.drop_first(), other, inside)
    }
}

/// Whether `e` is what is wrong with lists of rooms and roles.
pub open spec fn fault(
    rooms: Seq<Seq<char>>,
    senders: Seq<Seq<char>>,
    admins: Seq<Seq<char>>,
    untrusted: Seq<Seq<char>>,
    e: ConfigError,
) -> bool {
    if rooms.len() == 0 {
        e == ConfigError::NoRooms
    } else if senders.len() == 0 {
        e == ConfigError::NoSenders
    } else if first_where(admins, senders, false) is Some {
        e matches ConfigError::AdminNotAllowed(s) && Some(s@) == first_where(
            admins,
            senders,
            false,
        )
    } else if first_where(untrusted, senders, false) is Some {
        e matches ConfigError::UntrustedNotAllowed(s) && Some(s@) == first_where(
            untrusted,
            senders,
            false,
        )
    } else {
        e matches ConfigError::AdminAndUntrusted(s) && Some(s@) == first_where(
            untrusted,
            admins,
            true,
        )
    }
}

/// Whether lists of rooms and roles are complete and do not contradict each other.
pub open spec fn consistent(
    rooms: Seq<Seq<char>>,
    senders: Seq<Seq<char>>,
    admins: Seq<Seq<char>>,
    untrusted: Seq<Seq<char>>,
) -> bool {
    &&& rooms.len() > 0
    &&& senders.len() > 0
    &&& forall|i: int| 0 <= i < admins.len() ==> senders.contains(#[trigger] admins[i])
    &&& forall|i: int| 0 <= i < untrusted.len() ==> senders.contains(#[trigger] untrusted[i])
    &&& forall|i: int| 0 <= i < untrusted.len() ==> !admins.contains(#[trigger] untrusted[i])
}

/// There is a first where there is any.
proof fn lemma_first_where(list: Seq<Seq<char>>, other: Seq<Seq<char>>, inside: bool)
    ensures
        first_where(list, other, inside) is None <==> forall|i: int|
            0 <= i < list.len() ==> other.contains(#[trigger] list[i]) != inside,
    decreases list.len(),
{
    if list.len() > 0 && other.contains(list[0]) != inside {
        let rest = list.drop_first();
        lemma_first_where(rest, other, inside);
        if first_where(rest, other, inside) is None {
            assert forall|i: int| 0 <= i < list.len() implies other.contains(#[trigger] list[i])
                != inside by {
                if i > 0 {
                    assert(rest[i - 1] == list[i]);
                }
            }
        } else {
            let j = choose|j: int|
                0 <= j < rest.len() && other.contains(#[trigger] rest[j]) == inside;
            assert(list[j + 1] == rest[j]);
        }
    }
}

/// Finds the first of a list that is, or is not, in another.
fn find_where<'a>(list: &'a [String], other: &[String], inside: bool) -> (r: Option<&'a String>)
    ensures
        match r {
            Some(s) => first_where(views(list@), views(other@), inside) == Some(s@),
            None => first_where(views(list@), views(other@), inside) is None,
        },
{
    let ghost all = views(list@);
    assert(all.skip(0) =~= all);
    for i in 0..list.len()
        invariant
            all == views(list@),
            first_where(all, views(other@), inside) == first_where(
                all.skip(i as int),
                views(other@),
                inside,
            ),
    {
        assert(all.skip(i as int).drop_first() =~= all.skip(i + 1));
        if holds(other, list[i].as_str()) == inside {
            return Some(&list[i]);
        }
    }
    None
}

/// Whether nothing but the lists of rooms and roles differs.
pub open spec fn same_but_lists(a: Config, b: Config) -> bool {
    &&& a.homeserver == b.homeserver
    &&& a.user_id == b.user_id
    &&& a.display_name == b.display_name
    &&& a.context_window == b.context_window
    &&& a.timezone == b.timezone
    &&& a.model == b.model
    &&& a.limits == b.limits
    &&& a.state_dir == b.state_dir
}

/// The rooms of a configuration, or those of the environment.
pub open spec fn rooms_in(c: Config, env: Environment) -> Seq<Seq<char>> {
    overridden(views(c.allowed_rooms@), list_var(env.all(), "MERLIN_ALLOWED_ROOMS"@))
}

/// The senders of a configuration, or those of the environment.
pub open spec fn senders_in(c: Config, env: Environment) -> Seq<Seq<char>> {
    overridden(views(c.allowed_senders@), list_var(env.all(), "MERLIN_ALLOWED_SENDERS"@))
}

/// The administrators of a configuration, or those of the environment.
pub open spec fn admins_in(c: Config, env: Environment) -> Seq<Seq<char>> {
    overridden(views(c.admin_senders@), list_var(env.all(), "MERLIN_ADMIN_SENDERS"@))
}

/// The untrusted senders of a configuration, or those of the environment.
pub open spec fn untrusted_in(c: Config, env: Environment) -> Seq<Seq<char>> {
    overridden(views(c.untrusted_senders@), list_var(env.all(), "MERLIN_UNTRUSTED_SENDERS"@))
}

/// Whether a configuration has the lists of another, or those of the environment.
pub open spec fn lists_overridden(a: Config, b: Config, env: Environment) -> bool {
    &&& views(a.allowed_rooms@) == rooms_in(b, env)
    &&& views(a.allowed_senders@) == senders_in(b, env)
    &&& views(a.admin_senders@) == admins_in(b, env)
    &&& views(a.untrusted_senders@) == untrusted_in(b, env)
}

/// The part of a user id before the server.
pub open spec fn local_part(user_id: Seq<char>) -> Seq<char> {
    pieces(strip_front(user_id, Class::Only('@')), Class::Only(':'))[0]
}

impl Config {
    /// Whether the lists of rooms and roles are complete and do not contradict each other.
    pub open spec fn is_consistent(&self) -> bool {
        consistent(
            views(self.allowed_rooms@),
            views(self.allowed_senders@),
            views(self.admin_senders@),
            views(self.untrusted_senders@),
        )
    }

    /// Takes a configuration as it was read into use: the environment overrides its lists, and what
    /// nobody could work with is refused.
    pub fn load(parsed: Config, env: &Environment) -> (r: Result<Config, ConfigError>)
        ensures
            match r {
                Ok(c) => same_but_lists(c, parsed) && lists_overridden(c, parsed, *env)
                    && c.is_consistent(),
                Err(e) => !consistent(
                    rooms_in(parsed, *env),
                    senders_in(parsed, *env),
                    admins_in(parsed, *env),
                    untrusted_in(parsed, *env),
                ) && fault(
                    rooms_in(parsed, *env),
                    senders_in(parsed, *env),
                    admins_in(parsed, *env),
                    untrusted_in(parsed, *env),
                    e,
                ),
            },
    {
        let mut config = parsed;
        config.apply_env_overrides(env);
        match config.check() {
            Some(e) => Err(e),
            None => Ok(config),
        }
    }

    /// What is wrong with the lists of rooms and roles.
    pub fn check(&self) -> (r: Option<ConfigError>)
        ensures
            match r {
                Some(e) => !self.is_consistent() && fault(
                    views(self.allowed_rooms@),
                    views(self.allowed_senders@),
                    views(self.admin_senders@),
                    views(self.untrusted_senders@),
                    e,
                ),
                None => self.is_consistent(),
            },
    {
        let ghost rooms = views(self.allowed_rooms@);
        let ghost senders = views(self.allowed_senders@);
        let ghost admins = views(self.admin_senders@);
        let ghost untrusted = views(self.untrusted_senders@);
        proof {
            lemma_first_where(admins, senders, false);
            lemma_first_where(untrusted, senders, false);
            lemma_first_where(untrusted, admins, true);
        }
        assert(rooms.len() == self.allowed_rooms@.len());
        assert(senders.len() == self.allowed_senders@.len());
        if self.allowed_rooms.len() == 0 {
            return Some(ConfigError::NoRooms);
        }
        if self.allowed_senders.len() == 0 {
            return Some(ConfigError::NoSenders);
        }
        match find_where(self.admin_senders.as_slice(), self.allowed_senders.as_slice(), false) {
            Some(s) => {
                return Some(ConfigError::AdminNotAllowed(s.clone()));
            },
            None => {},
        }
        match find_where(
            self.untrusted_senders.as_slice(),
            self.allowed_senders.as_slice(),
            false,
        ) {
            Some(s) => {
                return Some(ConfigError::UntrustedNotAllowed(s.clone()));
            },
            None => {},
        }
        match find_where(self.untrusted_senders.as_slice(), self.admin_senders.as_slice(), true) {
            Some(s) => {
                return Some(ConfigError::AdminAndUntrusted(s.clone()));
            },
            None => {},
        }
        None
    }

    /// Takes over the lists that the environment holds.
    pub fn apply_env_overrides(&mut self, env: &Environment)
        ensures
            same_but_lists(*final(self), *old(self)),
            lists_overridden(*final(self), *old(self), *env),
    {
        match env.list_from_env("MERLIN_ALLOWED_ROOMS") {
            Some(rooms) => {
                self.allowed_rooms = rooms;
            },
            None => {},
        }
        match env.list_from_env("MERLIN_ALLOWED_SENDERS") {
            Some(senders) => {
                self.allowed_senders = senders;
            },
            None => {},
        }
        match env.list_from_env("MERLIN_ADMIN_SENDERS") {
            Some(admins) => {
                self.admin_senders = admins;
            },
            None => {},
        }
        match env.list_from_env("MERLIN_UNTRUSTED_SENDERS") {
            Some(senders) => {
                self.untrusted_senders = senders;
            },
            None => {},
        }
    }

    /// The name of the bot on its server.
    pub fn localpart(&self) -> (r: String)
        ensures
            r@ == local_part(self.user_id@),
    {
        let parts = split(
            strip_front_of(self.user_id.as_str(), &Class::Only('@')),
            &Class::Only(':'),
        );
        proof {
            lemma_pieces_not_empty(
                Seq::empty(),
                strip_front(self.user_id@, Class::Only('@')),
                Class::Only(':'),
            );
        }
        assert(views(parts@).len() == parts@.len());
        parts[0].clone()
    }

    /// The zone in which the bot lives: its own where it is known, else the default.
    pub fn tz(&self) -> (r: String)
        ensures
            r@ == zone_or(self.timezone@, known_zone(self.timezone@), DEFAULT_TIMEZONE@),
    {
        known_or(
            self.timezone.as_str(),
            zone_exists(self.timezone.as_str()),
            DEFAULT_TIMEZONE,
        )
    }

    /// Whether the bot takes part in a room.
    pub fn is_allowed_room(&self, room_id: &str) -> (r: bool)
        ensures
            r == views(self.allowed_rooms@).contains(room_id@),
    {
        holds(self.allowed_rooms.as_slice(), room_id)
    }

    /// Whether the bot answers a sender.
    pub fn is_allowed_sender(&self, sender: &str) -> (r: bool)
        ensures
            r == views(self.allowed_senders@).contains(sender@),
    {
        holds(self.allowed_senders.as_slice(), sender)
    }

    /// Whether a sender is an administrator.
    pub fn is_admin(&self, sender: &str) -> (r: bool)
        ensures
            r == views(self.admin_senders@).contains(sender@),
    {
        holds(self.admin_senders.as_slice(), sender)
    }

    /// How far a sender is trusted.
    pub fn trust_level(&self, sender: &str) -> (r: TrustLevel)
        ensures
            r == trust(
                views(self.admin_senders@),
                views(self.untrusted_senders@),
                views(self.allowed_senders@),
                sender@,
            ),
    {
        if self.is_admin(sender) {
            TrustLevel::Admin
        } else if holds(self.untrusted_senders.as_slice(), sender) {
            TrustLevel::Untrusted
        } else if self.is_allowed_sender(sender) {
            TrustLevel::Trusted
        } else {
            TrustLevel::Untrusted
        }
    }
}

/// Splitting always gives a first piece.
proof fn lemma_pieces_not_empty(current: Seq<char>, rest: Seq<char>, class: Class)
    ensures
        crate::text::pieces_from(current, rest, class).len() > 0,
    decreases rest.len(),
{
    if rest.len() > 0 && !class.has(rest[0]) {
        lemma_pieces_not_empty(current.push(rest[0]), rest.drop_first(), class);
    }
}

/// How far a sender is trusted.
pub open spec fn trust(
    admins: Seq<Seq<char>>,
    untrusted: Seq<Seq<char>>,
    allowed: Seq<Seq<char>>,
    sender: Seq<char>,
) -> TrustLevel {
    if admins.contains(sender) {
        TrustLevel::Admin
    } else if untrusted.contains(sender) || !allowed.contains(sender) {
        TrustLevel::Untrusted
    } else {
        TrustLevel::Trusted
    }
}

/// In a consistent configuration nobody is trusted who is not allowed to speak, and nobody who is
/// named untrusted is trusted at all.
pub proof fn law_trust_follows_the_roles(
    rooms: Seq<Seq<char>>,
    senders: Seq<Seq<char>>,
    admins: Seq<Seq<char>>,
    untrusted: Seq<Seq<char>>,
    sender: Seq<char>,
)
    requires
        consistent(rooms, senders, admins, untrusted),
    ensures
        !senders.contains(sender) ==> trust(admins, untrusted, senders, sender)
            == TrustLevel::Untrusted,
        untrusted.contains(sender) ==> trust(admins, untrusted, senders, sender)
            == TrustLevel::Untrusted,
        trust(admins, untrusted, senders, sender) == TrustLevel::Admin <==> admins.contains(sender),
{
    if admins.contains(sender) {
        let i = choose|i: int| 0 <= i < admins.len() && admins[i] == sender;
        assert(senders.contains(admins[i]));
        if untrusted.contains(sender) {
            let j = choose|j: int| 0 <= j < untrusted.len() && untrusted[j] == sender;
            assert(!admins.contains(untrusted[j]));
        }
    }
}

// ---------------------------------------------------------------------------------------------
// Secrets
// ---------------------------------------------------------------------------------------------

/// The first of two that there is.
pub open spec fn either(a: Option<Seq<char>>, b: Option<Seq<char>>) -> Option<Seq<char>> {
    match a {
        Some(s) => Some(s),
        None => b,
    }
}

impl Secrets {
    /// Reads the secrets out of the environment. The session is kept under the password where no
    /// key is given for it.
    pub fn from_env(env: &Environment) -> (r: Result<Self, ConfigError>)
        ensures
            match r {
                Ok(s) => {
                    &&& set_var(env.all(), "MATRIX_PASSWORD"@) == Some(s.matrix_password@)
                    &&& set_var(env.all(), "OPENROUTER_API_KEY"@) == Some(s.openrouter_api_key@)
                    &&& Some(s.session_encryption_key@) == either(
                        set_var(env.all(), "SESSION_ENCRYPTION_KEY"@),
                        set_var(env.all(), "MATRIX_PASSWORD"@),
                    )
                    &&& optional_string(s.exa_api_key) == set_var(env.all(), "EXA_API_KEY"@)
                    &&& optional_string(s.fal_api_key) == either(
                        set_var(env.all(), "FAL_API_KEY"@),
                        set_var(env.all(), "FAL_KEY"@),
                    )
                },
                Err(e) => if set_var(env.all(), "MATRIX_PASSWORD"@) is None {
                    e matches ConfigError::Missing(k) && k@ == "MATRIX_PASSWORD"@
                } else {
                    set_var(env.all(), "OPENROUTER_API_KEY"@) is None && (
                    e matches ConfigError::Missing(k) && k@ == "OPENROUTER_API_KEY"@)
                },
            },
    {
        let matrix_password = match env.req("MATRIX_PASSWORD") {
            Ok(v) => v,
            Err(e) => {
                return Err(e);
            },
        };
        let session_encryption_key = match env.opt("SESSION_ENCRYPTION_KEY") {
            Some(v) => v,
            None => matrix_password.clone(),
        };
        let openrouter_api_key = match env.req("OPENROUTER_API_KEY") {
            Ok(v) => v,
            Err(e) => {
                return Err(e);
            },
        };
        let fal_api_key = match env.opt("FAL_API_KEY") {
            Some(v) => Some(v),
            None => env.opt("FAL_KEY"),
        };
        Ok(
            Secrets {
                matrix_password,
                session_encryption_key,
                openrouter_api_key,
                exa_api_key: env.opt("EXA_API_KEY"),
                fal_api_key,
            },
        )
    }
}

// ---------------------------------------------------------------------------------------------
// Laws
// ---------------------------------------------------------------------------------------------

/// A configuration that the environment says nothing of is taken into use as it was read.
pub proof fn law_a_configuration_is_used_as_it_was_read(
    parsed: Config,
    env: &Environment,
    r: Result<Config, ConfigError>,
)
    requires
        call_ensures(Config::load, (parsed, env), r),
        list_var(env.all(), "MERLIN_ALLOWED_ROOMS"@) is None,
        list_var(env.all(), "MERLIN_ALLOWED_SENDERS"@) is None,
        list_var(env.all(), "MERLIN_ADMIN_SENDERS"@) is None,
        list_var(env.all(), "MERLIN_UNTRUSTED_SENDERS"@) is None,
        r is Ok,
    ensures
        r->Ok_0.homeserver == parsed.homeserver,
        r->Ok_0.user_id == parsed.user_id,
        r->Ok_0.display_name == parsed.display_name,
        views(r->Ok_0.allowed_rooms@) == views(parsed.allowed_rooms@),
        views(r->Ok_0.allowed_senders@) == views(parsed.allowed_senders@),
        views(r->Ok_0.admin_senders@) == views(parsed.admin_senders@),
        views(r->Ok_0.untrusted_senders@) == views(parsed.untrusted_senders@),
        r->Ok_0.context_window == parsed.context_window,
        r->Ok_0.timezone == parsed.timezone,
        r->Ok_0.model == parsed.model,
        r->Ok_0.limits == parsed.limits,
        r->Ok_0.state_dir == parsed.state_dir,
{
}

/// A list of the environment takes the place of the list that it is named after, and of no other.
pub proof fn law_the_environment_overrides_list_by_list(
    config: &mut Config,
    env: &Environment,
    list: Seq<Seq<char>>,
)
    requires
        call_ensures(Config::apply_env_overrides, (config, env), ()),
    ensures
        list_var(env.all(), "MERLIN_ALLOWED_ROOMS"@) == Some(list) ==> views(
            final(config).allowed_rooms@,
        ) == list,
        list_var(env.all(), "MERLIN_ALLOWED_ROOMS"@) is None ==> views(final(config).allowed_rooms@)
            == views(old(config).allowed_rooms@),
        list_var(env.all(), "MERLIN_ALLOWED_SENDERS"@) == Some(list) ==> views(
            final(config).allowed_senders@,
        ) == list,
        list_var(env.all(), "MERLIN_ALLOWED_SENDERS"@) is None ==> views(
            final(config).allowed_senders@,
        ) == views(old(config).allowed_senders@),
        list_var(env.all(), "MERLIN_ADMIN_SENDERS"@) == Some(list) ==> views(
            final(config).admin_senders@,
        ) == list,
        list_var(env.all(), "MERLIN_ADMIN_SENDERS"@) is None ==> views(final(config).admin_senders@)
            == views(old(config).admin_senders@),
        list_var(env.all(), "MERLIN_UNTRUSTED_SENDERS"@) == Some(list) ==> views(
            final(config).untrusted_senders@,
        ) == list,
        list_var(env.all(), "MERLIN_UNTRUSTED_SENDERS"@) is None ==> views(
            final(config).untrusted_senders@,
        ) == views(old(config).untrusted_senders@),
        final(config).user_id == old(config).user_id,
        final(config).model == old(config).model,
        final(config).limits == old(config).limits,
{
}

/// What is taken into use has a room to join and a sender to answer, its administrators and those it does
/// not trust may all speak to it, and nobody is both.
pub proof fn law_a_loaded_configuration_can_be_worked_with(
    parsed: Config,
    env: &Environment,
    r: Result<Config, ConfigError>,
    i: int,
    j: int,
)
    requires
        call_ensures(Config::load, (parsed, env), r),
        r is Ok,
    ensures
        r->Ok_0.allowed_rooms@.len() > 0,
        r->Ok_0.allowed_senders@.len() > 0,
        0 <= i < r->Ok_0.admin_senders@.len() ==> views(r->Ok_0.allowed_senders@).contains(
            r->Ok_0.admin_senders@[i]@,
        ),
        0 <= j < r->Ok_0.untrusted_senders@.len() ==> views(r->Ok_0.allowed_senders@).contains(
            r->Ok_0.untrusted_senders@[j]@,
        ),
        0 <= i < r->Ok_0.admin_senders@.len() && 0 <= j < r->Ok_0.untrusted_senders@.len()
            ==> r->Ok_0.admin_senders@[i]@ != r->Ok_0.untrusted_senders@[j]@,
{
    let c = r->Ok_0;
    assert(views(c.allowed_rooms@).len() == c.allowed_rooms@.len());
    assert(views(c.allowed_senders@).len() == c.allowed_senders@.len());
    if 0 <= i < c.admin_senders@.len() {
        assert(views(c.admin_senders@)[i] == c.admin_senders@[i]@);
        assert(views(c.allowed_senders@).contains(views(c.admin_senders@)[i]));
    }
    if 0 <= j < c.untrusted_senders@.len() {
        assert(views(c.untrusted_senders@)[j] == c.untrusted_senders@[j]@);
        assert(views(c.allowed_senders@).contains(views(c.untrusted_senders@)[j]));
        assert(!views(c.admin_senders@).contains(views(c.untrusted_senders@)[j]));
    }
}

/// What is refused is refused for a reason: no rooms, no senders, or a sender with two roles that do not
/// go together, who is named.
pub proof fn law_a_refused_configuration_is_at_fault(
    parsed: Config,
    env: &Environment,
    r: Result<Config, ConfigError>,
)
    requires
        call_ensures(Config::load, (parsed, env), r),
    ensures
        r matches Err(ConfigError::NoRooms) ==> rooms_in(parsed, *env).len() == 0,
        r matches Err(ConfigError::NoSenders) ==> senders_in(parsed, *env).len() == 0,
        r matches Err(ConfigError::AdminNotAllowed(s)) ==> admins_in(parsed, *env).contains(s@)
            && !senders_in(parsed, *env).contains(s@),
        r matches Err(ConfigError::UntrustedNotAllowed(s)) ==> untrusted_in(parsed, *env).contains(
            s@,
        ) && !senders_in(parsed, *env).contains(s@),
        r matches Err(ConfigError::AdminAndUntrusted(s)) ==> untrusted_in(parsed, *env).contains(s@)
            && admins_in(parsed, *env).contains(s@),
        !(r matches Err(ConfigError::Missing(_))),
        rooms_in(parsed, *env).len() == 0 ==> r is Err,
        senders_in(parsed, *env).len() == 0 ==> r is Err,
{
    lemma_first_is_one(admins_in(parsed, *env), senders_in(parsed, *env), false);
    lemma_first_is_one(untrusted_in(parsed, *env), senders_in(parsed, *env), false);
    lemma_first_is_one(untrusted_in(parsed, *env), admins_in(parsed, *env), true);
    lemma_first_where(admins_in(parsed, *env), senders_in(parsed, *env), false);
    lemma_first_where(untrusted_in(parsed, *env), senders_in(parsed, *env), false);
    lemma_first_where(untrusted_in(parsed, *env), admins_in(parsed, *env), true);
}

proof fn lemma_first_is_one(list: Seq<Seq<char>>, other: Seq<Seq<char>>, inside: bool)
    ensures
        first_where(list, other, inside) matches Some(x) ==> list.contains(x) && other.contains(x)
            == inside,
    decreases list.len(),
{
    if list.len() > 0 && other.contains(list[0]) != inside {
        lemma_first_is_one(list.drop_first(), other, inside);
        if first_where(list, other, inside) is Some {
            let x = first_where(list, other, inside)->0;
            let k = choose|k: int| 0 <= k < list.drop_first().len() && list.drop_first()[k] == x;
            assert(list[k + 1] == x);
        }
    } else if list.len() > 0 {
        assert(list.contains(list[0]));
    }
}

/// The entries of a list are its parts one by one, in their order and without the white space around
/// them; blank ones are left out and no other is.
pub proof fn law_entries_go_part_by_part(
    a: Seq<Seq<char>>,
    b: Seq<Seq<char>>,
    part: Seq<char>,
)
    ensures
        entries(a + b) == entries(a) + entries(b),
        trimmed(part).len() > 0 ==> entries(seq![part]) == seq![trimmed(part)],
        trimmed(part).len() == 0 ==> entries(seq![part]).len() == 0,
    decreases b.len(),
{
    reveal_with_fuel(entries, 2);
    assert(seq![part].drop_last() =~= Seq::empty());
    assert(trimmed(part).len() > 0 ==> entries(seq![part]) =~= seq![trimmed(part)]);
    if b.len() == 0 {
        assert(a + b =~= a);
        assert(entries(a) + entries(b) =~= entries(a));
    } else {
        law_entries_go_part_by_part(a, b.drop_last(), part);
        assert((a + b).drop_last() =~= a + b.drop_last());
        assert((a + b).last() == b.last());
        assert(entries(a + b) =~= entries(a) + entries(b));
    }
}

/// A variable is found by its name, whatever others are set before and behind it.
pub proof fn law_a_variable_is_found_by_its_name(
    before: Seq<(Seq<char>, Seq<char>)>,
    key: Seq<char>,
    value: Seq<char>,
    after: Seq<(Seq<char>, Seq<char>)>,
)
    requires
        forall|i: int| 0 <= i < before.len() ==> (#[trigger] before[i]).0 != key,
    ensures
        var(before.push((key, value)) + after, key) == Some(value),
        var(before, key) is None,
    decreases before.len(),
{
    let all = before.push((key, value)) + after;
    if before.len() == 0 {
        assert(all[0] == (key, value));
    } else {
        assert(all[0] == before[0]);
        assert(all.drop_first() =~= before.drop_first().push((key, value)) + after);
        assert forall|i: int| 0 <= i < before.drop_first().len() implies (
        #[trigger] before.drop_first()[i]).0 != key by {
            assert(before.drop_first()[i] == before[i + 1]);
        }
        law_a_variable_is_found_by_its_name(before.drop_first(), key, value, after);
    }
}

/// Each secret comes from the variable that it is named after; the password also serves for the session
/// where no key is given for it, and the other name of the image key where that is not set. Only the
/// password and the chat key have to be there.
pub proof fn law_each_secret_comes_from_its_variable(
    env: &Environment,
    r: Result<Secrets, ConfigError>,
    password: Seq<char>,
    chat: Seq<char>,
)
    requires
        call_ensures(Secrets::from_env, (env,), r),
        set_var(env.all(), "MATRIX_PASSWORD"@) == Some(password),
        set_var(env.all(), "OPENROUTER_API_KEY"@) == Some(chat),
    ensures
        r matches Ok(s) && {
            &&& s.matrix_password@ == password
            &&& s.openrouter_api_key@ == chat
            &&& set_var(env.all(), "SESSION_ENCRYPTION_KEY"@) is None ==> s.session_encryption_key@
                == password
            &&& set_var(env.all(), "SESSION_ENCRYPTION_KEY"@) matches Some(k)
                ==> s.session_encryption_key@ == k
            &&& s.exa_api_key is None <==> set_var(env.all(), "EXA_API_KEY"@) is None
            &&& s.exa_api_key matches Some(k) ==> set_var(env.all(), "EXA_API_KEY"@) == Some(k@)
            &&& set_var(env.all(), "FAL_API_KEY"@) matches Some(k) ==> (s.fal_api_key matches Some(f)
                && f@ == k)
            &&& set_var(env.all(), "FAL_API_KEY"@) is None ==> (set_var(env.all(), "FAL_KEY"@) matches
                Some(k) ==> (s.fal_api_key matches Some(f) && f@ == k))
            &&& set_var(env.all(), "FAL_API_KEY"@) is None && set_var(env.all(), "FAL_KEY"@) is None
                ==> s.fal_api_key is None
        },
{
}

/// Without the password or the chat key nothing is read, and what is missing is named.
pub proof fn law_a_missing_secret_is_named(env: &Environment, r: Result<Secrets, ConfigError>)
    requires
        call_ensures(Secrets::from_env, (env,), r),
    ensures
        set_var(env.all(), "MATRIX_PASSWORD"@) is None || set_var(
            env.all(),
            "OPENROUTER_API_KEY"@,
        ) is None ==> (r matches Err(ConfigError::Missing(k)) && set_var(env.all(), k@) is None),
        r matches Err(ConfigError::Missing(k)) ==> crate::text::begins(r->Err_0.words(), k@),
{
    if r is Err {
        let k = r->Err_0->Missing_0;
        crate::text::lemma_added(k@, " must be set in the environment and not be empty"@);
    }
}

/// An administrator is one who is listed as such; one who is listed as untrusted, or may not speak at
/// all, is not trusted; whoever else may speak is.
pub proof fn law_trust_goes_by_the_lists(config: &Config, sender: &str, r: TrustLevel, admin: bool)
    requires
        call_ensures(Config::trust_level, (config, sender), r),
        call_ensures(Config::is_admin, (config, sender), admin),
    ensures
        r == TrustLevel::Admin <==> admin,
        admin <==> views(config.admin_senders@).contains(sender@),
        !admin && views(config.untrusted_senders@).contains(sender@) ==> r == TrustLevel::Untrusted,
        !admin && !views(config.allowed_senders@).contains(sender@) ==> r == TrustLevel::Untrusted,
        r == TrustLevel::Trusted ==> views(config.allowed_senders@).contains(sender@) && !views(
            config.untrusted_senders@,
        ).contains(sender@),
{
}

/// The bot takes part in the rooms of its list and answers the senders of its list, and no others.
pub proof fn law_rooms_and_senders_are_those_listed(
    config: &Config,
    who: &str,
    room: bool,
    sender: bool,
    i: int,
)
    requires
        call_ensures(Config::is_allowed_room, (config, who), room),
        call_ensures(Config::is_allowed_sender, (config, who), sender),
    ensures
        0 <= i < config.allowed_rooms@.len() && config.allowed_rooms@[i]@ == who@ ==> room,
        room ==> exists|k: int|
            0 <= k < config.allowed_rooms@.len() && #[trigger] config.allowed_rooms@[k]@ == who@,
        0 <= i < config.allowed_senders@.len() && config.allowed_senders@[i]@ == who@ ==> sender,
        sender ==> exists|k: int|
            0 <= k < config.allowed_senders@.len() && #[trigger] config.allowed_senders@[k]@ == who@,
{
    if 0 <= i < config.allowed_rooms@.len() {
        assert(views(config.allowed_rooms@)[i] == config.allowed_rooms@[i]@);
    }
    if 0 <= i < config.allowed_senders@.len() {
        assert(views(config.allowed_senders@)[i] == config.allowed_senders@[i]@);
    }
    if room {
        let k = choose|k: int|
            0 <= k < views(config.allowed_rooms@).len() && views(config.allowed_rooms@)[k] == who@;
        assert(config.allowed_rooms@[k]@ == who@);
    }
    if sender {
        let k = choose|k: int|
            0 <= k < views(config.allowed_senders@).len() && views(config.allowed_senders@)[k]
                == who@;
        assert(config.allowed_senders@[k]@ == who@);
    }
}

/// The name of `@name:server` is `name`.
pub proof fn law_the_local_part_is_the_name(
    config: &Config,
    r: String,
    name: Seq<char>,
    server: Seq<char>,
)
    requires
        call_ensures(Config::localpart, (config,), r),
        config.user_id@ == seq!['@'] + name + seq![':'] + server,
        !name.contains(':'),
        name.len() > 0 && name[0] != '@',
    ensures
        r@ == name,
{
    let id = config.user_id@;
    let class = Class::Only(':');
    let rest = name + seq![':'] + server;
    assert(id[0] == '@');
    assert(id.drop_first() =~= rest);
    assert(rest[0] == name[0]);
    reveal_with_fuel(strip_front, 3);
    assert(strip_front(id, Class::Only('@')) == rest);
    lemma_first_piece(Seq::empty(), name, server);
    assert(Seq::<char>::empty() + name =~= name);
}

proof fn lemma_first_piece(current: Seq<char>, name: Seq<char>, server: Seq<char>)
    requires
        !name.contains(':'),
    ensures
        crate::text::pieces_from(current, name + seq![':'] + server, Class::Only(':'))[0] == current
            + name,
    decreases name.len(),
{
    let all = name + seq![':'] + server;
    if name.len() == 0 {
        assert(all[0] == ':');
        assert(current + name =~= current);
    } else {
        assert(all[0] == name[0]);
        assert(name[0] != ':') by {
            assert(name.contains(name[0]));
        }
        assert(!name.drop_first().contains(':')) by {
            if name.drop_first().contains(':') {
                let k = choose|k: int|
                    0 <= k < name.drop_first().len() && name.drop_first()[k] == ':';
                assert(name[k + 1] == ':');
            }
        }
        assert(all.drop_first() =~= name.drop_first() + seq![':'] + server);
        lemma_first_piece(current.push(name[0]), name.drop_first(), server);
        assert(current.push(name[0]) + name.drop_first() =~= current + name);
    }
}

/// The bot lives in the zone that it was given, where there is such a zone.
pub proof fn law_a_known_zone_is_kept(config: &Config, r: String)
    requires
        call_ensures(Config::tz, (config,), r),
    ensures
        known_zone(config.timezone@) ==> r@ == config.timezone@,
        !known_zone(config.timezone@) ==> r@ == "Australia/Sydney"@,
{
}

/// Who or what is at fault can be read in the message.
pub proof fn law_what_is_wrong_with_a_configuration_is_told(e: &ConfigError, r: String)
    requires
        call_ensures(ConfigError::message, (e,), r),
    ensures
        *e matches ConfigError::AdminNotAllowed(s) ==> crate::text::contains(r@, s@),
        *e matches ConfigError::UntrustedNotAllowed(s) ==> crate::text::contains(r@, s@),
        *e matches ConfigError::AdminAndUntrusted(s) ==> crate::text::contains(r@, s@),
        *e matches ConfigError::Missing(key) ==> crate::text::begins(r@, key@),
{
    match e {
        ConfigError::AdminNotAllowed(s) => {
            crate::text::lemma_parts("admin sender "@, s@, " is not also an allowed sender"@);
        },
        ConfigError::UntrustedNotAllowed(s) => {
            crate::text::lemma_parts("untrusted sender "@, s@, " is not also an allowed sender"@);
        },
        ConfigError::AdminAndUntrusted(s) => {
            crate::text::lemma_parts("sender "@, s@, " cannot be both an admin and untrusted"@);
        },
        ConfigError::Missing(key) => {
            crate::text::lemma_added(key@, " must be set in the environment and not be empty"@);
        },
        _ => {},
    }
}

/// A variable counts as set where something stands in it, without the white space around it; one that
/// has to be set and is not is named.
pub proof fn law_a_variable_is_set_where_something_stands_in_it(
    env: &Environment,
    key: &str,
    raw: Option<&str>,
    value: Option<String>,
    needed: Result<String, ConfigError>,
)
    requires
        call_ensures(Environment::get, (env, key), raw),
        call_ensures(Environment::opt, (env, key), value),
        call_ensures(Environment::req, (env, key), needed),
    ensures
        raw is None ==> value is None,
        raw matches Some(v) ==> (value is Some <==> trimmed(v@).len() > 0),
        value matches Some(t) ==> (raw matches Some(v) && t@ == trimmed(v@)),
        needed is Ok <==> value is Some,
        needed matches Ok(t) ==> t@ == value->0@,
        needed matches Err(e) ==> (e matches ConfigError::Missing(k) && k@ == key@),
{
}

} // verus!
