//! Whom a memory is about, and who may write it.
use vstd::prelude::*;
use crate::text;

verus! {

/// Whom a memory is about: a user, the channel, or how a user wants to be treated.
#[derive(Debug, Clone, PartialEq, Eq, Hash)]
pub enum Scope {
    User { subject_id: String },
    Lore,
    Pref { subject_id: String },
}

/// The contents of a `Scope`.
#[verifier::ext_equal]
pub ghost enum About {
    User(Seq<char>),
    Lore,
    Pref(Seq<char>),
}

impl About {
    pub open spec fn tag(self) -> Seq<char> {
        match self {
            About::User(id) => "user"@,
            About::Lore => "lore"@,
            About::Pref(id) => "pref"@,
        }
    }

    pub open spec fn subject(self) -> Option<Seq<char>> {
        match self {
            About::User(id) => Some(id),
            About::Lore => None,
            About::Pref(id) => Some(id),
        }
    }
}

impl Scope {
    pub open spec fn view(&self) -> About {
        match self {
            Scope::User { subject_id } => About::User(subject_id@),
            Scope::Lore => About::Lore,
            Scope::Pref { subject_id } => About::Pref(subject_id@),
        }
    }

    /// The name of the kind of scope.
    pub fn tag(&self) -> (r: &'static str)
        ensures
            r@ == self@.tag(),
    {
        match self {
            Scope::User { .. } => "user",
            Scope::Lore => "lore",
            Scope::Pref { .. } => "pref",
        }
    }

    /// The user that the scope is about.
    pub fn subject_id(&self) -> (r: Option<&str>)
        ensures
            text::opt_str_view(r) == self@.subject(),
    {
        match self {
            Scope::User { subject_id } => Some(subject_id.as_str()),
            Scope::Pref { subject_id } => Some(subject_id.as_str()),
            Scope::Lore => None,
        }
    }

    pub fn copy(&self) -> (r: Scope)
        ensures
            r@ == self@,
    {
        match self {
            Scope::User { subject_id } => Scope::User { subject_id: subject_id.clone() },
            Scope::Pref { subject_id } => Scope::Pref { subject_id: subject_id.clone() },
            Scope::Lore => Scope::Lore,
        }
    }
}

/// The tags of the three scopes differ.
pub proof fn lemma_tags_differ()
    ensures
        "user"@ != "lore"@,
        "user"@ != "pref"@,
        "lore"@ != "pref"@,
{
    reveal_strlit("user");
    reveal_strlit("lore");
    reveal_strlit("pref");
    assert("user"@[0] != "lore"@[0]);
    assert("user"@[0] != "pref"@[0]);
    assert("lore"@[0] != "pref"@[0]);
}

/// The role of a user in the channel, from the least to the most trusted.
#[derive(Debug, Clone, Copy, PartialEq, Eq, PartialOrd, Ord, Structural)]
pub enum UserRole {
    Regular,
    Moderator,
    Broadcaster,
}

/// How far a statement is trusted.
#[derive(Debug, Clone, Copy, PartialEq, Eq, Structural)]
pub enum TrustLevel {
    SelfClaim,
    ThirdParty,
    ModBroadcaster,
}

/// A badge that a chat user wears.
#[derive(Debug, Clone, PartialEq, Eq)]
pub struct Badge {
    pub name: String,
    pub version: String,
}

pub open spec fn badge_names(badges: Seq<Badge>) -> Seq<Seq<char>> {
    Seq::new(badges.len(), |i: int| badges[i].name@)
}

/// The role that badges stand for. Broadcaster outranks moderator.
pub open spec fn role_of(names: Seq<Seq<char>>) -> UserRole {
    if names.contains("broadcaster"@) {
        UserRole::Broadcaster
    } else if names.contains("moderator"@) {
        UserRole::Moderator
    } else {
        UserRole::Regular
    }
}

/// Whether one of the badges has a name.
pub fn has_badge(badges: &Vec<Badge>, name: &str) -> (r: bool)
    ensures
        r == badge_names(badges@).contains(name@),
{
    let ghost names = badge_names(badges@);
    let mut i: usize = 0;
    while i < badges.len()
        invariant
            names == badge_names(badges@),
            i <= badges@.len(),
            forall|j: int| 0 <= j < i ==> names[j] != name@,
        decreases badges@.len() - i,
    {
        if text::same(badges[i].name.as_str(), name) {
            assert(names[i as int] == name@);
            return true;
        }
        i = i + 1;
    }
    false
}

/// Classifies a user's role from their badges. Broadcaster outranks moderator.
pub fn classify_role(badges: &Vec<Badge>) -> (r: UserRole)
    ensures
        r == role_of(badge_names(badges@)),
{
    if has_badge(badges, "broadcaster") {
        UserRole::Broadcaster
    } else if has_badge(badges, "moderator") {
        UserRole::Moderator
    } else {
        UserRole::Regular
    }
}

/// Whether a speaker with a role may write to a scope. Preferences are self-only for all
/// roles, facts about users are self-only for regular users, and channel lore is for
/// moderators and the broadcaster.
pub open spec fn may_write(role: UserRole, scope: About, speaker: Seq<char>) -> bool {
    match scope {
        About::Pref(id) => id == speaker,
        About::User(id) => role != UserRole::Regular || id == speaker,
        About::Lore => role != UserRole::Regular,
    }
}

/// Whether a speaker with the given role may write to a scope.
pub fn is_write_allowed(role: UserRole, scope: &Scope, speaker_id: &str) -> (r: bool)
    ensures
        r == may_write(role, scope@, speaker_id@),
{
    match scope {
        Scope::Pref { subject_id } => text::same(subject_id.as_str(), speaker_id),
        Scope::User { subject_id } => match role {
            UserRole::Regular => text::same(subject_id.as_str(), speaker_id),
            UserRole::Moderator => true,
            UserRole::Broadcaster => true,
        },
        Scope::Lore => match role {
            UserRole::Regular => false,
            UserRole::Moderator => true,
            UserRole::Broadcaster => true,
        },
    }
}

/// How far a statement by a speaker with a role is trusted. Moderators and the
/// broadcaster are trusted more, but not about themselves.
pub open spec fn trust_of(role: UserRole, scope: About, speaker: Seq<char>) -> TrustLevel {
    if role != UserRole::Regular && scope.subject() != Some(speaker) {
        TrustLevel::ModBroadcaster
    } else {
        TrustLevel::SelfClaim
    }
}

pub fn trust_level_for(role: UserRole, scope: &Scope, speaker_id: &str) -> (r: TrustLevel)
    ensures
        r == trust_of(role, scope@, speaker_id@),
{
    let about_other = match scope.subject_id() {
        None => true,
        Some(s) => !text::same(s, speaker_id),
    };
    match role {
        UserRole::Regular => TrustLevel::SelfClaim,
        _ => if about_other {
            TrustLevel::ModBroadcaster
        } else {
            TrustLevel::SelfClaim
        },
    }
}

/// The confidence that a new memory starts with.
pub open spec fn seed_of(level: TrustLevel) -> u8 {
    match level {
        TrustLevel::SelfClaim => 70,
        TrustLevel::ModBroadcaster => 90,
        TrustLevel::ThirdParty => 30,
    }
}

pub fn seed_confidence(level: TrustLevel) -> (r: u8)
    ensures
        r == seed_of(level),
{
    match level {
        TrustLevel::SelfClaim => 70,
        TrustLevel::ModBroadcaster => 90,
        TrustLevel::ThirdParty => 30,
    }
}

/// A regular user can never write facts or preferences about a subject whose id differs
/// from their own.
pub proof fn law_regular_cannot_write_for_other_subject(scope: About, speaker: Seq<char>)
    requires
        scope.subject() is Some,
        scope.subject() != Some(speaker),
    ensures
        !may_write(UserRole::Regular, scope, speaker),
{
}

/// Preferences are self-only for every role.
pub proof fn law_pref_always_self_only(role: UserRole, subject: Seq<char>, speaker: Seq<char>)
    ensures
        may_write(role, About::Pref(subject), speaker) <==> subject == speaker,
{
}

/// What a user says about themselves is trusted as a self claim, whatever their role.
pub proof fn law_self_writes_are_self_claims(role: UserRole, scope: About, speaker: Seq<char>)
    requires
        scope.subject() == Some(speaker),
    ensures
        trust_of(role, scope, speaker) == TrustLevel::SelfClaim,
{
}

/// More trusted roles may write all that less trusted ones may.
pub proof fn law_rights_grow_with_role(scope: About, speaker: Seq<char>)
    ensures
        may_write(UserRole::Regular, scope, speaker) ==> may_write(
            UserRole::Moderator,
            scope,
            speaker,
        ),
        may_write(UserRole::Moderator, scope, speaker) <==> may_write(
            UserRole::Broadcaster,
            scope,
            speaker,
        ),
{
}


/// Moderators and the broadcaster write about users and the channel, anyone about
/// themselves; nobody writes how another one wants to be treated.
pub proof fn law_rights_are_these(role: UserRole, id: Seq<char>, speaker: Seq<char>)
    ensures
        may_write(role, About::Lore, speaker) <==> role == UserRole::Moderator || role
            == UserRole::Broadcaster,
        may_write(role, About::User(id), speaker) <==> id == speaker || role == UserRole::Moderator
            || role == UserRole::Broadcaster,
        may_write(role, About::Pref(id), speaker) <==> id == speaker,
{
}

/// The badges decide the role, and that of the broadcaster comes first.
pub proof fn law_badges_give_the_role(names: Seq<Seq<char>>)
    ensures
        role_of(names) == UserRole::Broadcaster <==> names.contains("broadcaster"@),
        role_of(names) == UserRole::Moderator <==> names.contains("moderator"@) && !names.contains(
            "broadcaster"@,
        ),
{
}

/// What moderators and the broadcaster say of others and of the channel counts for more than
/// what anyone says of themselves, and that for more than what others say.
pub proof fn law_trust_grows(role: UserRole, scope: About, speaker: Seq<char>)
    ensures
        trust_of(role, scope, speaker) == TrustLevel::ModBroadcaster <==> (role
            == UserRole::Moderator || role == UserRole::Broadcaster) && scope.subject() != Some(
            speaker,
        ),
        trust_of(role, scope, speaker) == TrustLevel::ModBroadcaster ==> seed_of(
            trust_of(role, scope, speaker),
        ) == 90,
        trust_of(role, scope, speaker) == TrustLevel::SelfClaim ==> seed_of(
            trust_of(role, scope, speaker),
        ) == 70,
        seed_of(TrustLevel::ThirdParty) < seed_of(TrustLevel::SelfClaim) < seed_of(
            TrustLevel::ModBroadcaster,
        ) <= 100,
        trust_of(UserRole::Regular, scope, speaker) == TrustLevel::SelfClaim,
        scope is Lore ==> scope.subject() is None,
        scope matches About::User(id) ==> scope.subject() == Some(id) && scope.tag() == "user"@,
        scope matches About::Pref(id) ==> scope.subject() == Some(id) && scope.tag() == "pref"@,
        scope is Lore ==> scope.tag() == "lore"@,
{
}

} // verus!
