//! The memory store: facts under keys, with the rules by which a language model may add,
//! read and rework them.
use vstd::prelude::*;
use crate::json;
use crate::llm::ToolCall;
use crate::memory::scope;
use crate::memory::scope::{Scope, UserRole};
use crate::order;
use crate::order::Item;
use crate::table;
use crate::table::Table;
use crate::text;
use crate::time::Timestamp;

verus! {

// ---------------------------------------------------------------------------
// Slugs and keys
// ---------------------------------------------------------------------------

/// A lower-case ASCII letter or a digit.
pub open spec fn is_slug_char(c: char) -> bool {
    text::is_lower(c) || text::is_digit(c)
}

/// A text in lower case with each run of other characters after the first letter or
/// digit turned into one dash.
pub open spec fn dashed(s: Seq<char>) -> Seq<char>
    decreases s.len(),
{
    if s.len() == 0 {
        Seq::empty()
    } else {
        let r = dashed(s.drop_last());
        let c = text::lower_char(s.last());
        if is_slug_char(c) {
            r.push(c)
        } else if r.len() == 0 || r.last() == '-' {
            r
        } else {
            r.push('-')
        }
    }
}

/// The slug of a label: letters and digits in lower case, with single dashes between
/// their runs.
pub open spec fn slug_of(s: Seq<char>) -> Seq<char> {
    let r = dashed(s);
    if r.len() > 0 && r.last() == '-' {
        r.drop_last()
    } else {
        r
    }
}

/// Whether a text is a slug: letters and digits in lower case, with single dashes only
/// between them.
pub open spec fn is_slug(s: Seq<char>) -> bool {
    &&& forall|i: int| 0 <= i < s.len() ==> is_slug_char(#[trigger] s[i]) || s[i] == '-'
    &&& s.len() > 0 ==> s[0] != '-' && s.last() != '-'
    &&& forall|i: int| 0 < i < s.len() ==> !(#[trigger] s[i] == '-' && s[i - 1] == '-')
}

proof fn lemma_dashed(s: Seq<char>)
    ensures
        ({
            let r = dashed(s);
            &&& forall|i: int| 0 <= i < r.len() ==> is_slug_char(#[trigger] r[i]) || r[i] == '-'
            &&& r.len() > 0 ==> r[0] != '-'
            &&& forall|i: int| 0 < i < r.len() ==> !(#[trigger] r[i] == '-' && r[i - 1] == '-')
        }),
    decreases s.len(),
{
    if s.len() > 0 {
        lemma_dashed(s.drop_last());
    }
}

/// Every slug has the form of one.
pub proof fn law_slug_form(s: Seq<char>)
    ensures
        is_slug(slug_of(s)),
{
    lemma_dashed(s);
    let r = dashed(s);
    let t = slug_of(s);
    if r.len() > 0 && r.last() == '-' {
        assert(r.len() > 1);
        assert(t.last() == r[r.len() - 2]);
        assert(t[0] == r[0]);
        assert(r[r.len() - 1] == '-');
    }
}

proof fn lemma_dashed_of_slug(s: Seq<char>)
    requires
        forall|i: int| 0 <= i < s.len() ==> is_slug_char(#[trigger] s[i]) || s[i] == '-',
        s.len() > 0 ==> s[0] != '-',
        forall|i: int| 0 < i < s.len() ==> !(#[trigger] s[i] == '-' && s[i - 1] == '-'),
    ensures
        dashed(s) == s,
    decreases s.len(),
{
    if s.len() > 0 {
        let d = s.drop_last();
        assert forall|i: int| 0 < i < d.len() implies !(#[trigger] d[i] == '-' && d[i - 1] == '-') by {
            assert(d[i] == s[i] && d[i - 1] == s[i - 1]);
        }
        lemma_dashed_of_slug(d);
        let c = s.last();
        assert(is_slug_char(s[s.len() - 1]) || s[s.len() - 1] == '-');
        if c == '-' {
            assert(s.len() > 1);
            assert(d.last() == s[s.len() - 2]);
            assert(s[s.len() - 1] == '-');
        }
        assert(d.push(c) =~= s);
    }
}

/// A slug is its own slug.
pub proof fn law_slug_idempotent(s: Seq<char>)
    ensures
        slug_of(slug_of(s)) == slug_of(s),
{
    law_slug_form(s);
    lemma_dashed_of_slug(slug_of(s));
}

/// Turns a label into a slug of lower-case ASCII letters and digits. Runs of other
/// characters become a single dash; there is none at either end.
pub fn sanitize_slug(s: &str) -> (r: String)
    ensures
        r@ == slug_of(s@),
        is_slug(r@),
{
    let v = text::chars_of(s);
    let mut out: Vec<char> = Vec::new();
    let mut i: usize = 0;
    assert(v@.take(0) =~= Seq::<char>::empty());
    while i < v.len()
        invariant
            i <= v@.len(),
            out@ == dashed(v@.take(i as int)),
        decreases v@.len() - i,
    {
        assert(v@.take(i + 1).drop_last() =~= v@.take(i as int));
        let c = text::ascii_lower_char(v[i]);
        if ('a' <= c && c <= 'z') || ('0' <= c && c <= '9') {
            out.push(c);
        } else if out.len() > 0 && out[out.len() - 1] != '-' {
            out.push('-');
        }
        i = i + 1;
    }
    assert(v@.take(i as int) =~= v@);
    let end: usize = if out.len() > 0 && out[out.len() - 1] == '-' {
        out.len() - 1
    } else {
        out.len()
    };
    proof {
        law_slug_form(s@);
        assert(out@.subrange(0, end as int) =~= slug_of(s@));
    }
    text::string_of(&out, 0, end)
}

/// The key of a memory in a scope.
pub open spec fn key_of(about: scope::About, slug: Seq<char>) -> Seq<char> {
    match about {
        scope::About::User(id) => "user:"@ + id + ":"@ + slug_of(slug),
        scope::About::Lore => "lore::"@ + slug_of(slug),
        scope::About::Pref(id) => "pref:"@ + id + ":"@ + slug_of(slug),
    }
}

/// Composes the key of a memory from its scope and a label.
pub fn build_key(scope: &Scope, slug: &str) -> (r: String)
    ensures
        r@ == key_of(scope@, slug@),
{
    let slug = sanitize_slug(slug);
    match scope {
        Scope::User { subject_id } => {
            let mut s = "user:".to_owned();
            s.push_str(subject_id.as_str());
            s.push_str(":");
            s.push_str(slug.as_str());
            s
        },
        Scope::Lore => {
            let mut s = "lore::".to_owned();
            s.push_str(slug.as_str());
            s
        },
        Scope::Pref { subject_id } => {
            let mut s = "pref:".to_owned();
            s.push_str(subject_id.as_str());
            s.push_str(":");
            s.push_str(slug.as_str());
            s
        },
    }
}

/// Keys of different kinds of scope never meet.
pub proof fn law_keys_of_scopes_differ(a: scope::About, b: scope::About, x: Seq<char>, y: Seq<char>)
    requires
        a.tag() != b.tag(),
    ensures
        key_of(a, x) != key_of(b, y),
{
    reveal_strlit("user:");
    reveal_strlit("lore::");
    reveal_strlit("pref:");
    let p = key_of(a, x);
    let q = key_of(b, y);
    assert(p[0] == match a {
        scope::About::User(_) => 'u',
        scope::About::Lore => 'l',
        scope::About::Pref(_) => 'p',
    });
    assert(q[0] == match b {
        scope::About::User(_) => 'u',
        scope::About::Lore => 'l',
        scope::About::Pref(_) => 'p',
    });
}

// ---------------------------------------------------------------------------
// Memories
// ---------------------------------------------------------------------------

/// A single remembered fact.
#[derive(Debug, Clone, PartialEq, Eq)]
pub struct Memory {
    pub fact: String,
    pub scope: Scope,
    pub sources: Vec<String>,
    pub confidence: u8,
    pub created_at: Timestamp,
    pub updated_at: Timestamp,
    pub last_accessed: Timestamp,
    pub access_count: u32,
}

/// The contents of a `Memory`.
#[verifier::ext_equal]
pub ghost struct Fact {
    pub fact: Seq<char>,
    pub scope: scope::About,
    pub sources: Seq<Seq<char>>,
    pub confidence: u8,
    pub created_at: Timestamp,
    pub updated_at: Timestamp,
    pub last_accessed: Timestamp,
    pub access_count: u32,
}

/// A fact that was just learned.
pub open spec fn new_fact(
    fact: Seq<char>,
    about: scope::About,
    source: Seq<char>,
    confidence: u8,
    now: Timestamp,
) -> Fact {
    Fact {
        fact,
        scope: about,
        sources: seq![source],
        confidence,
        created_at: now,
        updated_at: now,
        last_accessed: now,
        access_count: 0,
    }
}

impl Memory {
    pub open spec fn view(&self) -> Fact {
        Fact {
            fact: self.fact@,
            scope: self.scope@,
            sources: text::views(self.sources@),
            confidence: self.confidence,
            created_at: self.created_at,
            updated_at: self.updated_at,
            last_accessed: self.last_accessed,
            access_count: self.access_count,
        }
    }

    pub fn new(fact: String, scope: Scope, source: String, confidence: u8, now: Timestamp) -> (r:
        Memory)
        ensures
            r@ == new_fact(fact@, scope@, source@, confidence, now),
    {
        let ghost src = source@;
        let mut sources: Vec<String> = Vec::new();
        sources.push(source);
        assert(text::views(sources@) =~= seq![src]);
        Memory {
            fact,
            scope,
            sources,
            confidence,
            created_at: now,
            updated_at: now,
            last_accessed: now,
            access_count: 0,
        }
    }
}

/// The current display name of a user.
#[derive(Debug, Clone, PartialEq, Eq)]
pub struct Identity {
    pub username: String,
    pub updated_at: Timestamp,
}

/// The contents of an `Identity`.
#[verifier::ext_equal]
pub ghost struct Known {
    pub username: Seq<char>,
    pub updated_at: Timestamp,
}

impl Identity {
    pub open spec fn view(&self) -> Known {
        Known { username: self.username@, updated_at: self.updated_at }
    }
}

/// All memories, and the names of the users that they are about.
#[derive(Debug, Clone, PartialEq)]
pub struct MemoryStore {
    pub version: u32,
    pub memories: Table<Memory>,
    pub identities: Table<Identity>,
}

/// Facts under keys, in the order of their first insertion.
#[verifier::ext_equal]
pub ghost struct Shelf {
    pub keys: Seq<Seq<char>>,
    pub facts: Seq<Fact>,
}

impl Shelf {
    pub open spec fn wf(self) -> bool {
        self.keys.len() == self.facts.len() && self.keys.no_duplicates()
    }

    pub open spec fn has(self, key: Seq<char>) -> bool {
        self.keys.contains(key)
    }

    pub open spec fn get(self, key: Seq<char>) -> Fact {
        self.facts[self.keys.index_of(key)]
    }

    /// The shelf with a fact under a key; a new key comes last.
    pub open spec fn put(self, key: Seq<char>, fact: Fact) -> Shelf {
        if self.has(key) {
            Shelf { keys: self.keys, facts: self.facts.update(self.keys.index_of(key), fact) }
        } else {
            Shelf { keys: self.keys.push(key), facts: self.facts.push(fact) }
        }
    }

    /// The shelf without a key.
    pub open spec fn without(self, key: Seq<char>) -> Shelf {
        if self.has(key) {
            Shelf {
                keys: self.keys.remove(self.keys.index_of(key)),
                facts: self.facts.remove(self.keys.index_of(key)),
            }
        } else {
            self
        }
    }

    /// The shelf as a map.
    pub open spec fn map(self) -> Map<Seq<char>, Fact> {
        table::as_map(self.keys, self.facts)
    }
}

/// The facts in a table.
pub open spec fn shelf(t: Table<Memory>) -> Shelf {
    Shelf { keys: t.keys(), facts: Seq::new(t.vals().len(), |i: int| t.vals()[i]@) }
}

impl MemoryStore {
    pub open spec fn wf(&self) -> bool {
        self.memories.wf() && self.identities.wf()
    }

    pub open spec fn shelf(&self) -> Shelf {
        shelf(self.memories)
    }

    /// The names of the users that are known, by user id.
    pub open spec fn names(&self) -> Map<Seq<char>, Known> {
        self.identities@.map_values(|i: Identity| i@)
    }

    /// An empty store.
    pub fn new() -> (r: MemoryStore)
        ensures
            r.wf(),
            r.version == 2,
            r.shelf().keys.len() == 0,
            r.shelf().facts.len() == 0,
            r.names() == Map::<Seq<char>, Known>::empty(),
    {
        let r = MemoryStore { version: 2, memories: Table::new(), identities: Table::new() };
        assert(r.names() =~= Map::<Seq<char>, Known>::empty());
        r
    }
}

impl Default for MemoryStore {
    fn default() -> (r: MemoryStore)
        ensures
            r.wf(),
            r.version == 2,
            r.shelf().keys.len() == 0,
            r.names() == Map::<Seq<char>, Known>::empty(),
    {
        MemoryStore::new()
    }
}

// ---------------------------------------------------------------------------
// Identities
// ---------------------------------------------------------------------------

/// Whether the name of a user is not the one that is known.
pub open spec fn is_news(names: Map<Seq<char>, Known>, id: Seq<char>, username: Seq<char>) -> bool {
    !names.contains_key(id) || names[id].username != username
}

/// The names that are known once a user was seen under a name.
pub open spec fn observed(
    names: Map<Seq<char>, Known>,
    id: Seq<char>,
    username: Seq<char>,
    now: Timestamp,
) -> Map<Seq<char>, Known> {
    names.insert(id, Known { username, updated_at: now })
}

impl MemoryStore {
    /// Records the name of a user. Says whether the stored name changed, by a new entry
    /// or a rename; where it did not, only the time of the observation moves.
    pub fn upsert_identity(&mut self, user_id: &str, username: &str, now: Timestamp) -> (r: bool)
        requires
            old(self).wf(),
        ensures
            final(self).wf(),
            final(self).memories == old(self).memories,
            final(self).version == old(self).version,
            final(self).names() == old(self).names().insert(
                user_id@,
                Known { username: username@, updated_at: now },
            ),
            r == !(old(self).names().contains_key(user_id@) && old(
                self,
            ).names()[user_id@].username == username@),
            r == is_news(old(self).names(), user_id@, username@),
            final(self).names() == observed(old(self).names(), user_id@, username@, now),
    {
        let changed = match self.identities.get(user_id) {
            Some(existing) => !text::same(existing.username.as_str(), username),
            None => true,
        };
        let entry = Identity { username: username.to_owned(), updated_at: now };
        let ghost e = entry@;
        self.identities.insert(user_id.to_owned(), entry);
        assert(self.names() =~= old(self).names().insert(user_id@, e));
        changed
    }
}

// ---------------------------------------------------------------------------
// Room
// ---------------------------------------------------------------------------

/// Per-scope maximum memory counts.
#[derive(Debug, Clone, Copy, PartialEq, Eq, Structural)]
pub struct Caps {
    pub max_user: usize,
    pub max_lore: usize,
    pub max_pref: usize,
}

impl Caps {
    pub open spec fn of(self, about: scope::About) -> usize {
        match about {
            scope::About::User(_) => self.max_user,
            scope::About::Lore => self.max_lore,
            scope::About::Pref(_) => self.max_pref,
        }
    }
}

/// How many of the facts are in scopes with a tag.
pub open spec fn count_in(facts: Seq<Fact>, tag: Seq<char>) -> nat
    decreases facts.len(),
{
    if facts.len() == 0 {
        0
    } else {
        count_in(facts.drop_last(), tag) + if facts.last().scope.tag() == tag {
            1nat
        } else {
            0nat
        }
    }
}

/// Whether fact `a` is to be evicted before fact `b`: it has the lower score or, with
/// the same score, was accessed longer ago.
pub open spec fn goes_first(facts: Seq<Fact>, scores: Seq<u64>, a: int, b: int) -> bool {
    scores[a] < scores[b] || (scores[a] == scores[b] && facts[a].last_accessed@
        < facts[b].last_accessed@)
}

/// The position of the fact in a scope that is evicted first; of several alike, the one
/// that stands first.
pub open spec fn lowest(facts: Seq<Fact>, scores: Seq<u64>, tag: Seq<char>) -> Option<int>
    decreases facts.len(),
{
    if facts.len() == 0 {
        None
    } else {
        let n = facts.len() - 1;
        let best = lowest(facts.drop_last(), scores, tag);
        if facts[n].scope.tag() != tag {
            best
        } else {
            match best {
                None => Some(n),
                Some(b) => if goes_first(facts, scores, n, b) {
                    Some(n)
                } else {
                    Some(b)
                },
            }
        }
    }
}

/// What is evicted is in the scope, and nothing in the scope would go before it.
pub proof fn law_lowest_is_minimal(facts: Seq<Fact>, scores: Seq<u64>, tag: Seq<char>)
    ensures
        match lowest(facts, scores, tag) {
            Some(b) => {
                &&& 0 <= b < facts.len()
                &&& facts[b].scope.tag() == tag
                &&& forall|i: int|
                    0 <= i < facts.len() && #[trigger] facts[i].scope.tag() == tag ==> !goes_first(
                        facts,
                        scores,
                        i,
                        b,
                    )
            },
            None => forall|i: int|
                0 <= i < facts.len() ==> #[trigger] facts[i].scope.tag() != tag,
        },
        lowest(facts, scores, tag) is None <==> count_in(facts, tag) == 0,
    decreases facts.len(),
{
    if facts.len() > 0 {
        let d = facts.drop_last();
        law_lowest_is_minimal(d, scores, tag);
        assert forall|i: int, j: int| 0 <= i < d.len() && 0 <= j < d.len() implies goes_first(
            d,
            scores,
            i,
            j,
        ) == goes_first(facts, scores, i, j) by {
            assert(d[i] == facts[i] && d[j] == facts[j]);
        }
        assert forall|i: int| 0 <= i < d.len() implies d[i].scope.tag() == (
        #[trigger] facts[i]).scope.tag() by {
            assert(d[i] == facts[i]);
        }
    }
}

impl MemoryStore {
    fn count_scope(&self, tag: &str) -> (r: usize)
        requires
            self.wf(),
        ensures
            r == count_in(self.shelf().facts, tag@),
    {
        let ghost facts = self.shelf().facts;
        let mut n: usize = 0;
        let mut i: usize = 0;
        assert(facts.take(0) =~= Seq::<Fact>::empty());
        while i < self.memories.len()
            invariant
                self.wf(),
                facts == self.shelf().facts,
                n <= i <= facts.len(),
                n == count_in(facts.take(i as int), tag@),
            decreases facts.len() - i,
        {
            assert(facts.take(i + 1).drop_last() =~= facts.take(i as int));
            if text::same(self.memories.value_at(i).scope.tag(), tag) {
                n = n + 1;
            }
            i = i + 1;
        }
        assert(facts.take(i as int) =~= facts);
        n
    }

    fn find_lowest(&self, tag: &str, scores: &Vec<u64>) -> (r: Option<usize>)
        requires
            self.wf(),
            scores@.len() == self.shelf().facts.len(),
        ensures
            match r {
                Some(i) => lowest(self.shelf().facts, scores@, tag@) == Some(i as int) && i
                    < self.shelf().facts.len(),
                None => lowest(self.shelf().facts, scores@, tag@) is None,
            },
    {
        let ghost facts = self.shelf().facts;
        let mut best: Option<usize> = None;
        let mut i: usize = 0;
        assert(facts.take(0) =~= Seq::<Fact>::empty());
        while i < self.memories.len()
            invariant
                self.wf(),
                facts == self.shelf().facts,
                scores@.len() == facts.len(),
                i <= facts.len(),
                match best {
                    Some(b) => b < i && lowest(facts.take(i as int), scores@, tag@) == Some(
                        b as int,
                    ),
                    None => lowest(facts.take(i as int), scores@, tag@) is None,
                },
            decreases facts.len() - i,
        {
            assert(facts.take(i + 1).drop_last() =~= facts.take(i as int));
            let m = self.memories.value_at(i);
            assert(m@ == facts[i as int]);
            if text::same(m.scope.tag(), tag) {
                match best {
                    None => {
                        best = Some(i);
                    },
                    Some(b) => {
                        let other = self.memories.value_at(b);
                        assert(other@ == facts[b as int]);
                        if scores[i] < scores[b] || (scores[i] == scores[b]
                            && m.last_accessed.is_before(&other.last_accessed)) {
                            best = Some(i);
                        }
                    },
                }
            }
            i = i + 1;
        }
        assert(facts.take(i as int) =~= facts);
        best
    }

    /// Evicts the memory with the lowest score in a scope; of equal scores, the one that
    /// was accessed longest ago. `scores` holds a score for each memory, in the order of
    /// the table. Gives back the evicted key.
    pub fn evict_lowest_in_scope(&mut self, tag: &str, scores: &Vec<u64>) -> (r: Option<String>)
        requires
            old(self).wf(),
            scores@.len() == old(self).shelf().facts.len(),
        ensures
            final(self).wf(),
            final(self).identities == old(self).identities,
            final(self).version == old(self).version,
            match lowest(old(self).shelf().facts, scores@, tag@) {
                Some(i) => {
                    let key = old(self).shelf().keys[i];
                    &&& text::opt_view(r) == Some(key)
                    &&& final(self).shelf() == old(self).shelf().without(key)
                },
                None => r is None && final(self).shelf() == old(self).shelf(),
            },
    {
        let i: usize = match self.find_lowest(tag, scores) {
            Some(i) => i,
            None => {
                return None;
            },
        };
        let key = self.memories.key_at(i).to_owned();
        proof {
            table::lemma_index_of(self.memories.keys(), i as int);
        }
        self.memories.remove_at(i);
        proof {
            let k = old(self).shelf().keys[i as int];
            assert(self.shelf() =~= old(self).shelf().without(k));
        }
        Some(key)
    }
}

// ---------------------------------------------------------------------------
// Tool calls of the extractor
// ---------------------------------------------------------------------------

/// Who is speaking, the limits that apply, the score of each memory in the order of the
/// table, and the time.
pub struct DispatchContext<'a> {
    pub speaker_id: &'a str,
    pub speaker_username: &'a str,
    pub speaker_role: UserRole,
    pub caps: Caps,
    pub scores: &'a Vec<u64>,
    pub now: Timestamp,
}

/// The reply to a call whose arguments could not be read.
pub open spec fn bad_arguments_text(name: Seq<char>, e: crate::llm::ArgsError) -> Seq<char> {
    "Error: tool '"@ + name + "' arguments were not valid JSON ("@ + e.error + "). Raw text: "@
        + e.raw + ". Resend with a valid JSON object."@
}

fn bad_arguments(name: &str, error: &str, raw: &str) -> (r: String)
    ensures
        r@ == bad_arguments_text(name@, (crate::llm::ArgsError { error: error@, raw: raw@ })),
{
    let mut s = "Error: tool '".to_owned();
    s.push_str(name);
    s.push_str("' arguments were not valid JSON (");
    s.push_str(error);
    s.push_str("). Raw text: ");
    s.push_str(raw);
    s.push_str(". Resend with a valid JSON object.");
    s
}

/// The scope that a request to save names, or the reply where it names none.
pub open spec fn requested_scope(tag: Seq<char>, subject: Option<Seq<char>>) -> Result<
    scope::About,
    Seq<char>,
> {
    if tag == "user"@ || tag == "pref"@ {
        match subject {
            Some(id) => Ok(
                if tag == "user"@ {
                    scope::About::User(id)
                } else {
                    scope::About::Pref(id)
                },
            ),
            None => Err("Error: save_memory requires 'subject_id' for user/pref scope"@),
        }
    } else if tag == "lore"@ {
        match subject {
            Some(id) => Err("Error: save_memory must NOT include 'subject_id' for lore scope"@),
            None => Ok(scope::About::Lore),
        }
    } else {
        Err("Error: unknown scope '"@ + tag + "' (expected user|lore|pref)"@)
    }
}

pub open spec fn scope_view(r: Result<Scope, String>) -> Result<scope::About, Seq<char>> {
    match r {
        Ok(s) => Ok(s@),
        Err(e) => Err(e@),
    }
}

fn request_scope(tag: &str, subject_id: &Option<String>) -> (r: Result<Scope, String>)
    ensures
        scope_view(r) == requested_scope(tag@, text::opt_view(*subject_id)),
{
    proof {
        scope::lemma_tags_differ();
    }
    if text::same(tag, "user") {
        match subject_id {
            Some(s) => Ok(Scope::User { subject_id: s.clone() }),
            None => Err(
                "Error: save_memory requires 'subject_id' for user/pref scope".to_owned(),
            ),
        }
    } else if text::same(tag, "pref") {
        match subject_id {
            Some(s) => Ok(Scope::Pref { subject_id: s.clone() }),
            None => Err(
                "Error: save_memory requires 'subject_id' for user/pref scope".to_owned(),
            ),
        }
    } else if text::same(tag, "lore") {
        match subject_id {
            Some(_) => Err(
                "Error: save_memory must NOT include 'subject_id' for lore scope".to_owned(),
            ),
            None => Ok(Scope::Lore),
        }
    } else {
        let mut s = "Error: unknown scope '".to_owned();
        s.push_str(tag);
        s.push_str("' (expected user|lore|pref)");
        Err(s)
    }
}

/// The `Debug` form of an optional text.
pub open spec fn debug_opt(s: Option<Seq<char>>) -> Seq<char> {
    match s {
        Some(t) => "Some("@ + text::debug_quoted(t) + ")"@,
        None => "None"@,
    }
}

/// The `Debug` form of a role.
pub open spec fn debug_role(role: UserRole) -> Seq<char> {
    match role {
        UserRole::Regular => "Regular"@,
        UserRole::Moderator => "Moderator"@,
        UserRole::Broadcaster => "Broadcaster"@,
    }
}

/// The reply where the speaker may not write to the scope.
pub open spec fn not_authorized_text(about: scope::About, role: UserRole) -> Seq<char> {
    "Error: not authorized to save "@ + about.tag() + " for subject="@ + debug_opt(about.subject())
        + " — speaker role is "@ + debug_role(role)
        + ". Regular users may write User/Pref only with subject_id == speaker_id. Prefs are always self-only. Lore is moderator/broadcaster-only."@
}

fn not_authorized(scope: &Scope, role: UserRole) -> (r: String)
    ensures
        r@ == not_authorized_text(scope@, role),
{
    let mut s = "Error: not authorized to save ".to_owned();
    s.push_str(scope.tag());
    s.push_str(" for subject=");
    let subject = match scope.subject_id() {
        Some(id) => {
            let mut t = "Some(".to_owned();
            let q = text::debug_str(id);
            t.push_str(q.as_str());
            t.push_str(")");
            t
        },
        None => "None".to_owned(),
    };
    s.push_str(subject.as_str());
    s.push_str(" — speaker role is ");
    s.push_str(
        match role {
            UserRole::Regular => "Regular",
            UserRole::Moderator => "Moderator",
            UserRole::Broadcaster => "Broadcaster",
        },
    );
    s.push_str(
        ". Regular users may write User/Pref only with subject_id == speaker_id. Prefs are always self-only. Lore is moderator/broadcaster-only.",
    );
    s
}

/// What a request to save asks for.
#[derive(Debug, Clone)]
pub struct SaveRequest {
    pub scope: String,
    pub slug: String,
    pub fact: String,
    pub subject_id: Option<String>,
}

/// The contents of a `SaveRequest`.
#[verifier::ext_equal]
pub ghost struct Save {
    pub scope: Seq<char>,
    pub slug: Seq<char>,
    pub fact: Seq<char>,
    pub subject: Option<Seq<char>>,
}

impl SaveRequest {
    pub open spec fn view(&self) -> Save {
        Save {
            scope: self.scope@,
            slug: self.slug@,
            fact: self.fact@,
            subject: text::opt_view(self.subject_id),
        }
    }
}

/// Who asks, and under which limits.
#[verifier::ext_equal]
pub ghost struct Asker {
    pub id: Seq<char>,
    pub username: Seq<char>,
    pub role: UserRole,
    pub caps: Caps,
    pub scores: Seq<u64>,
    pub now: Timestamp,
}

impl<'a> DispatchContext<'a> {
    pub open spec fn view(&self) -> Asker {
        Asker {
            id: self.speaker_id@,
            username: self.speaker_username@,
            role: self.speaker_role,
            caps: self.caps,
            scores: self.scores@,
            now: self.now,
        }
    }
}

/// A shelf after a request, and the reply.
#[verifier::ext_equal]
pub ghost struct Answer {
    pub shelf: Shelf,
    pub reply: Seq<char>,
}

/// A fact that was reported again: the text is the new one, the speaker joins the
/// sources, and the confidence stays.
pub open spec fn reported_again(f: Fact, text: Seq<char>, source: Seq<char>, now: Timestamp) -> Fact {
    Fact {
        fact: text,
        updated_at: now,
        sources: if f.sources.contains(source) {
            f.sources
        } else {
            f.sources.push(source)
        },
        ..f
    }
}

/// A shelf with a new fact, after room was made for it.
pub open spec fn added(shelf: Shelf, about: scope::About, save: Save, by: Asker) -> Answer {
    let key = key_of(about, save.slug);
    let seed = scope::seed_of(scope::trust_of(by.role, about, by.id));
    let fact = new_fact(save.fact, about, by.username, seed, by.now);
    let count = count_in(shelf.facts, about.tag());
    let cap = by.caps.of(about);
    let saved = "Saved memory '"@ + key + "' (confidence "@ + text::decimal(seed as nat) + ")"@;
    if count < cap {
        Answer { shelf: shelf.put(key, fact), reply: saved }
    } else {
        match lowest(shelf.facts, by.scores, about.tag()) {
            Some(i) => Answer {
                shelf: shelf.without(shelf.keys[i]).put(key, fact),
                reply: saved,
            },
            None => Answer {
                shelf,
                reply: "Memory full ("@ + text::decimal(count) + "/"@ + text::decimal(cap as nat)
                    + ") and no evictable entry in scope "@ + about.tag(),
            },
        }
    }
}

/// What a request to save comes to.
pub open spec fn saved(shelf: Shelf, save: Save, by: Asker) -> Answer {
    if save.slug.len() == 0 || save.fact.len() == 0 {
        Answer { shelf, reply: "Error: save_memory requires non-empty 'slug' and 'fact'"@ }
    } else {
        match requested_scope(save.scope, save.subject) {
            Err(e) => Answer { shelf, reply: e },
            Ok(about) => {
                let key = key_of(about, save.slug);
                if !scope::may_write(by.role, about, by.id) {
                    Answer { shelf, reply: not_authorized_text(about, by.role) }
                } else if shelf.has(key) {
                    Answer {
                        shelf: shelf.put(
                            key,
                            reported_again(shelf.get(key), save.fact, by.username, by.now),
                        ),
                        reply: "Updated memory '"@ + key + "'"@,
                    }
                } else {
                    added(shelf, about, save, by)
                }
            },
        }
    }
}

fn quoted_reply(before: &str, key: &str, after: &str) -> (r: String)
    ensures
        r@ == before@ + key@ + after@,
{
    let mut s = before.to_owned();
    s.push_str(key);
    s.push_str(after);
    s
}

impl Memory {
    /// A copy of the memory.
    pub fn copy(&self) -> (r: Memory)
        ensures
            r@ == self@,
    {
        Memory {
            fact: self.fact.clone(),
            scope: self.scope.copy(),
            sources: text::copy_list(&self.sources),
            confidence: self.confidence,
            created_at: self.created_at,
            updated_at: self.updated_at,
            last_accessed: self.last_accessed,
            access_count: self.access_count,
        }
    }
}

/// Putting a value into the table puts its fact onto the shelf.
proof fn lemma_insert(before: Table<Memory>, after: Table<Memory>, key: Seq<char>, m: Memory)
    requires
        before.wf(),
        before.keys().contains(key) ==> {
            &&& after.keys() == before.keys()
            &&& after.vals() == before.vals().update(before.keys().index_of(key), m)
        },
        !before.keys().contains(key) ==> {
            &&& after.keys() == before.keys().push(key)
            &&& after.vals() == before.vals().push(m)
        },
    ensures
        shelf(after) == shelf(before).put(key, m@),
{
    assert(shelf(after) =~= shelf(before).put(key, m@));
}

impl MemoryStore {
    fn store(&mut self, key: String, m: Memory)
        requires
            old(self).wf(),
        ensures
            final(self).wf(),
            final(self).shelf() == old(self).shelf().put(key@, m@),
            final(self).identities == old(self).identities,
            final(self).version == old(self).version,
    {
        let ghost k = key@;
        self.memories.insert(key, m);
        proof {
            lemma_insert(old(self).memories, self.memories, k, m);
        }
    }

    fn drop_key(&mut self, key: &str) -> (r: bool)
        requires
            old(self).wf(),
        ensures
            final(self).wf(),
            r == old(self).shelf().has(key@),
            final(self).shelf() == old(self).shelf().without(key@),
            final(self).identities == old(self).identities,
            final(self).version == old(self).version,
    {
        let gone = self.memories.remove(key).is_some();
        assert(self.shelf() =~= old(self).shelf().without(key@));
        gone
    }

    /// The memory under a key.
    pub fn find(&self, key: &str) -> (r: Option<&Memory>)
        requires
            self.wf(),
        ensures
            match r {
                Some(m) => self.shelf().has(key@) && self.shelf().get(key@) == m@,
                None => !self.shelf().has(key@),
            },
    {
        self.memories.get(key)
    }

    fn add_new(&mut self, scope: Scope, key: String, req: &SaveRequest, ctx: &DispatchContext<'_>) -> (r:
        String)
        requires
            old(self).wf(),
            ctx.scores@.len() == old(self).shelf().facts.len(),
            key@ == key_of(scope@, req.slug@),
        ensures
            final(self).wf(),
            final(self).identities == old(self).identities,
            final(self).version == old(self).version,
            ({
                let a = added(old(self).shelf(), scope@, req@, ctx@);
                &&& final(self).shelf() == a.shelf
                &&& r@ == a.reply
            }),
    {
        let level = scope::trust_level_for(ctx.speaker_role, &scope, ctx.speaker_id);
        let seed: u8 = scope::seed_confidence(level);
        let cap: usize = match &scope {
            Scope::User { .. } => ctx.caps.max_user,
            Scope::Lore => ctx.caps.max_lore,
            Scope::Pref { .. } => ctx.caps.max_pref,
        };
        let count: usize = self.count_scope(scope.tag());
        if count >= cap {
            let evicted = self.evict_lowest_in_scope(scope.tag(), ctx.scores);
            if evicted.is_none() {
                let mut s = "Memory full (".to_owned();
                let c = text::from_usize(count);
                s.push_str(c.as_str());
                s.push_str("/");
                let d = text::from_usize(cap);
                s.push_str(d.as_str());
                s.push_str(") and no evictable entry in scope ");
                s.push_str(scope.tag());
                return s;
            }
        }
        let mut reply = quoted_reply("Saved memory '", key.as_str(), "' (confidence ");
        let digits = text::from_u64(seed as u64);
        reply.push_str(digits.as_str());
        reply.push_str(")");
        let m = Memory::new(
            req.fact.clone(),
            scope,
            ctx.speaker_username.to_owned(),
            seed,
            ctx.now,
        );
        self.store(key, m);
        reply
    }

    /// Saves a fact on behalf of the speaker, if the permissions allow it. A fact under
    /// the same key is updated without touching its confidence; a new one may evict the
    /// lowest-scoring fact of its scope.
    pub fn save_memory(&mut self, req: &SaveRequest, ctx: &DispatchContext<'_>) -> (r: String)
        requires
            old(self).wf(),
            ctx.scores@.len() == old(self).shelf().facts.len(),
        ensures
            final(self).wf(),
            final(self).identities == old(self).identities,
            final(self).version == old(self).version,
            ({
                let a = saved(old(self).shelf(), req@, ctx@);
                &&& final(self).shelf() == a.shelf
                &&& r@ == a.reply
            }),
    {
        if text::char_count(req.slug.as_str()) == 0 || text::char_count(req.fact.as_str()) == 0 {
            return "Error: save_memory requires non-empty 'slug' and 'fact'".to_owned();
        }
        let scope = match request_scope(req.scope.as_str(), &req.subject_id) {
            Ok(s) => s,
            Err(e) => {
                return e;
            },
        };
        if !scope::is_write_allowed(ctx.speaker_role, &scope, ctx.speaker_id) {
            return not_authorized(&scope, ctx.speaker_role);
        }
        let key = build_key(&scope, req.slug.as_str());
        let updated = match self.find(key.as_str()) {
            Some(existing) => {
                let mut m = existing.copy();
                m.fact = req.fact.clone();
                m.updated_at = ctx.now;
                let ghost before = text::views(m.sources@);
                if !text::is_one_of(ctx.speaker_username, &m.sources) {
                    m.sources.push(ctx.speaker_username.to_owned());
                    assert(text::views(m.sources@) =~= before.push(ctx.speaker_username@));
                }
                Some(m)
            },
            None => None,
        };
        match updated {
            Some(m) => {
                let reply = quoted_reply("Updated memory '", key.as_str(), "'");
                proof {
                    let f = self.shelf().get(key@);
                    assert(m@ =~= reported_again(f, req.fact@, ctx.speaker_username@, ctx.now));
                }
                self.store(key, m);
                reply
            },
            None => self.add_new(scope, key, req, ctx),
        }
    }
}

/// The `Debug` form of a list of texts.
pub open spec fn debug_list(list: Seq<Seq<char>>) -> Seq<char> {
    "["@ + text::join(Seq::new(list.len(), |i: int| text::debug_quoted(list[i])), ", "@) + "]"@
}

fn debug_sources(list: &Vec<String>) -> (r: String)
    ensures
        r@ == debug_list(text::views(list@)),
{
    let ghost all = text::views(list@);
    let mut parts: Vec<String> = Vec::new();
    let mut i: usize = 0;
    while i < list.len()
        invariant
            all == text::views(list@),
            i <= list@.len(),
            parts@.len() == i,
            forall|j: int| 0 <= j < i ==> (#[trigger] parts@[j])@ == text::debug_quoted(all[j]),
        decreases list@.len() - i,
    {
        parts.push(text::debug_str(list[i].as_str()));
        i = i + 1;
    }
    assert(text::views(parts@) =~= Seq::new(all.len(), |i: int| text::debug_quoted(all[i])));
    quoted_reply("[", text::joined(&parts, ", ").as_str(), "]")
}

/// One line of the list of memories.
pub open spec fn memory_line(key: Seq<char>, f: Fact) -> Seq<char> {
    "- "@ + key + ": "@ + f.fact + " (confidence="@ + text::decimal(f.confidence as nat)
        + ", sources="@ + debug_list(f.sources) + ")"@
}

pub fn line_of(key: &str, m: &Memory) -> (r: String)
    ensures
        r@ == memory_line(key@, m@),
{
    let mut s = quoted_reply("- ", key, ": ");
    s.push_str(m.fact.as_str());
    s.push_str(" (confidence=");
    let c = text::from_u64(m.confidence as u64);
    s.push_str(c.as_str());
    s.push_str(", sources=");
    let d = debug_sources(&m.sources);
    s.push_str(d.as_str());
    s.push_str(")");
    s
}

/// Whether a fact is in a scope and, where a subject is given, about that subject.
pub open spec fn is_listed(f: Fact, tag: Seq<char>, subject: Option<Seq<char>>) -> bool {
    f.scope.tag() == tag && (subject is Some ==> f.scope.subject() == subject)
}

/// The lines of the facts that are listed, in the order of the shelf.
pub open spec fn listed_lines(
    keys: Seq<Seq<char>>,
    facts: Seq<Fact>,
    tag: Seq<char>,
    subject: Option<Seq<char>>,
) -> Seq<Seq<char>>
    decreases facts.len(),
{
    if facts.len() == 0 {
        Seq::empty()
    } else {
        let rest = listed_lines(keys, facts.drop_last(), tag, subject);
        if is_listed(facts.last(), tag, subject) {
            rest.push(memory_line(keys[facts.len() - 1], facts.last()))
        } else {
            rest
        }
    }
}

/// The texts in ascending order.
pub open spec fn sorted_texts(list: Seq<Seq<char>>) -> Seq<Seq<char>> {
    order::sorted(
        Seq::new(list.len(), |i: int| order::Place { rank: 0, key: list[i], index: 0 }),
    ).map_values(|p: order::Place| p.key)
}

/// Puts texts in ascending order.
pub fn sort_texts(list: Vec<String>) -> (r: Vec<String>)
    ensures
        text::views(r@) == sorted_texts(text::views(list@)),
{
    let ghost all = text::views(list@);
    let ghost places = Seq::new(
        all.len(),
        |i: int| order::Place { rank: 0, key: all[i], index: 0 },
    );
    let mut items: Vec<Item> = Vec::new();
    let mut i: usize = 0;
    while i < list.len()
        invariant
            all == text::views(list@),
            i <= list@.len(),
            items@.len() == i,
            forall|j: int| 0 <= j < i ==> (#[trigger] items@[j])@ == (order::Place {
                rank: 0,
                key: all[j],
                index: 0,
            }),
        decreases list@.len() - i,
    {
        items.push(Item { rank: 0, key: list[i].clone(), index: 0 });
        i = i + 1;
    }
    assert(order::places(items@) =~= places);
    let sorted = order::sort(items);
    let mut out: Vec<String> = Vec::new();
    let mut k: usize = 0;
    while k < sorted.len()
        invariant
            k <= sorted@.len(),
            out@.len() == k,
            forall|j: int| 0 <= j < k ==> (#[trigger] out@[j])@ == sorted@[j]@.key,
        decreases sorted@.len() - k,
    {
        out.push(sorted[k].key.clone());
        k = k + 1;
    }
    assert(text::views(out@) =~= order::places(sorted@).map_values(|p: order::Place| p.key));
    out
}

/// The reply to a request to list memories.
pub open spec fn listing(shelf: Shelf, tag: Seq<char>, subject: Option<Seq<char>>) -> Seq<char> {
    let lines = listed_lines(shelf.keys, shelf.facts, tag, subject);
    if lines.len() == 0 {
        "(none)"@
    } else {
        text::join(sorted_texts(lines), "\n"@)
    }
}

/// The request to save that a tool call carries.
pub open spec fn save_of(arguments: Seq<char>) -> Save {
    Save {
        scope: json::string_member_or_empty(arguments, "scope"@),
        slug: json::string_member_or_empty(arguments, "slug"@),
        fact: json::string_member_or_empty(arguments, "fact"@),
        subject: json::string_member(arguments, "subject_id"@),
    }
}

/// What a tool call of the extractor comes to.
pub open spec fn extractor_answer(shelf: Shelf, call: crate::llm::Call, by: Asker) -> Answer {
    match call.parse_error {
        Some(e) => Answer { shelf, reply: bad_arguments_text(call.name, e) },
        None => if call.name == "save_memory"@ {
            saved(shelf, save_of(call.arguments), by)
        } else if call.name == "get_memories"@ {
            Answer {
                shelf,
                reply: listing(
                    shelf,
                    json::string_member_or_empty(call.arguments, "scope"@),
                    json::string_member(call.arguments, "subject_id"@),
                ),
            }
        } else {
            Answer { shelf, reply: "Unknown tool: "@ + call.name }
        },
    }
}

impl MemoryStore {
    /// The lines of the memories of a scope, in the order of the table.
    pub fn scope_lines(&self, tag: &str) -> (r: Vec<String>)
        requires
            self.wf(),
        ensures
            text::views(r@) == listed_lines(self.shelf().keys, self.shelf().facts, tag@, None),
    {
        self.lines_for(tag, &None)
    }

    fn lines_for(&self, tag: &str, subject_id: &Option<String>) -> (r: Vec<String>)
        requires
            self.wf(),
        ensures
            text::views(r@) == listed_lines(
                self.shelf().keys,
                self.shelf().facts,
                tag@,
                text::opt_view(*subject_id),
            ),
    {
        let ghost keys = self.shelf().keys;
        let ghost facts = self.shelf().facts;
        let ghost subject = text::opt_view(*subject_id);
        let mut lines: Vec<String> = Vec::new();
        let mut i: usize = 0;
        proof {
            assert(facts.take(0) =~= Seq::<Fact>::empty());
            assert(text::views(lines@) =~= Seq::<Seq<char>>::empty());
        }
        while i < self.memories.len()
            invariant
                self.wf(),
                keys == self.shelf().keys,
                facts == self.shelf().facts,
                subject == text::opt_view(*subject_id),
                i <= facts.len(),
                text::views(lines@) == listed_lines(keys, facts.take(i as int), tag@, subject),
            decreases facts.len() - i,
        {
            let ghost before = text::views(lines@);
            assert(facts.take(i + 1).drop_last() =~= facts.take(i as int));
            let m = self.memories.value_at(i);
            assert(m@ == facts[i as int]);
            let right_subject = match subject_id {
                None => true,
                Some(s) => match m.scope.subject_id() {
                    Some(id) => text::same(id, s.as_str()),
                    None => false,
                },
            };
            if text::same(m.scope.tag(), tag) && right_subject {
                let line = line_of(self.memories.key_at(i), m);
                lines.push(line);
                assert(text::views(lines@) =~= before.push(line@));
            }
            i = i + 1;
        }
        assert(facts.take(i as int) =~= facts);
        lines
    }

    /// Lists the memories of a scope, and of one subject where one is given, in
    /// ascending order.
    pub fn list_memories(&self, tag: &str, subject_id: &Option<String>) -> (r: String)
        requires
            self.wf(),
        ensures
            r@ == listing(self.shelf(), tag@, text::opt_view(*subject_id)),
    {
        let lines = self.lines_for(tag, subject_id);
        assert(text::views(lines@).len() == lines@.len());
        if lines.len() == 0 {
            "(none)".to_owned()
        } else {
            text::joined(&sort_texts(lines), "\n")
        }
    }

    /// Executes a tool call of the extractor: `save_memory` goes through the permission
    /// rules, `get_memories` only reads. Any other name gives an error text.
    pub fn execute_tool_call(&mut self, call: &ToolCall, ctx: &DispatchContext<'_>) -> (r: String)
        requires
            old(self).wf(),
            ctx.scores@.len() == old(self).shelf().facts.len(),
        ensures
            final(self).wf(),
            final(self).identities == old(self).identities,
            final(self).version == old(self).version,
            ({
                let a = extractor_answer(old(self).shelf(), call@, ctx@);
                &&& final(self).shelf() == a.shelf
                &&& r@ == a.reply
            }),
    {
        if let Some(err) = &call.arguments_parse_error {
            return bad_arguments(call.name.as_str(), err.error.as_str(), err.raw.as_str());
        }
        let args = call.arguments.as_str();
        if text::same(call.name.as_str(), "save_memory") {
            let req = SaveRequest {
                scope: json::get_string_or_empty(args, "scope"),
                slug: json::get_string_or_empty(args, "slug"),
                fact: json::get_string_or_empty(args, "fact"),
                subject_id: json::get_string(args, "subject_id"),
            };
            assert(req@ =~= save_of(call.arguments@));
            self.save_memory(&req, ctx)
        } else if text::same(call.name.as_str(), "get_memories") {
            let scope = json::get_string_or_empty(args, "scope");
            let subject = json::get_string(args, "subject_id");
            self.list_memories(scope.as_str(), &subject)
        } else {
            let mut s = "Unknown tool: ".to_owned();
            s.push_str(call.name.as_str());
            s
        }
    }
}

// ---------------------------------------------------------------------------
// Tool calls of the consolidator
// ---------------------------------------------------------------------------

/// The reply where no memory has a key.
pub open spec fn no_memory_text(key: Seq<char>) -> Seq<char> {
    "No memory with key '"@ + key + "'"@
}

/// What dropping a key comes to.
pub open spec fn dropped(shelf: Shelf, key: Seq<char>) -> Answer {
    if shelf.has(key) {
        Answer { shelf: shelf.without(key), reply: "Dropped memory '"@ + key + "'"@ }
    } else {
        Answer { shelf, reply: no_memory_text(key) }
    }
}

/// The reply to a request for one memory.
pub open spec fn shown(shelf: Shelf, key: Seq<char>) -> Seq<char> {
    if shelf.has(key) {
        let f = shelf.get(key);
        key + ": "@ + f.fact + " (confidence="@ + text::decimal(f.confidence as nat) + ", sources="@
            + debug_list(f.sources) + ", last_accessed="@ + f.last_accessed.text() + ", hits="@
            + text::decimal(f.access_count as nat) + ")"@
    } else {
        no_memory_text(key)
    }
}

/// A source that counts: not one of the two stand-ins for an unknown one.
pub open spec fn is_real_source(s: Seq<char>) -> bool {
    s != "__identity__"@ && s != "legacy"@
}

fn real_source(s: &str) -> (r: bool)
    ensures
        r == is_real_source(s@),
{
    !text::same(s, "__identity__") && !text::same(s, "legacy")
}

/// How many sources count.
pub open spec fn count_real(sources: Seq<Seq<char>>) -> nat
    decreases sources.len(),
{
    if sources.len() == 0 {
        0
    } else {
        count_real(sources.drop_last()) + if is_real_source(sources.last()) {
            1nat
        } else {
            0nat
        }
    }
}

/// A list with those sources that count and are not yet in it.
pub open spec fn joined_sources(list: Seq<Seq<char>>, sources: Seq<Seq<char>>) -> Seq<Seq<char>>
    decreases sources.len(),
{
    if sources.len() == 0 {
        list
    } else {
        let rest = joined_sources(list, sources.drop_last());
        if is_real_source(sources.last()) && !rest.contains(sources.last()) {
            rest.push(sources.last())
        } else {
            rest
        }
    }
}

/// The distinct sources of several facts that count, in order.
pub open spec fn merged_sources(inputs: Seq<Fact>) -> Seq<Seq<char>>
    decreases inputs.len(),
{
    if inputs.len() == 0 {
        Seq::empty()
    } else {
        joined_sources(merged_sources(inputs.drop_last()), inputs.last().sources)
    }
}

/// The most sources that count of any one fact.
pub open spec fn most_sources(inputs: Seq<Fact>) -> nat
    decreases inputs.len(),
{
    if inputs.len() == 0 {
        0
    } else {
        let rest = most_sources(inputs.drop_last());
        let n = count_real(inputs.last().sources);
        if n > rest {
            n
        } else {
            rest
        }
    }
}

pub open spec fn most_confidence(inputs: Seq<Fact>) -> u8
    decreases inputs.len(),
{
    if inputs.len() == 0 {
        0
    } else {
        let rest = most_confidence(inputs.drop_last());
        if inputs.last().confidence > rest {
            inputs.last().confidence
        } else {
            rest
        }
    }
}

/// The earliest time of creation.
pub open spec fn earliest(inputs: Seq<Fact>) -> Timestamp
    recommends
        inputs.len() > 0,
    decreases inputs.len(),
{
    if inputs.len() <= 1 {
        inputs[0].created_at
    } else {
        let rest = earliest(inputs.drop_last());
        if inputs.last().created_at@ < rest@ {
            inputs.last().created_at
        } else {
            rest
        }
    }
}

/// The latest time of access.
pub open spec fn latest(inputs: Seq<Fact>) -> Timestamp
    recommends
        inputs.len() > 0,
    decreases inputs.len(),
{
    if inputs.len() <= 1 {
        inputs[0].last_accessed
    } else {
        let rest = latest(inputs.drop_last());
        if inputs.last().last_accessed@ > rest@ {
            inputs.last().last_accessed
        } else {
            rest
        }
    }
}

/// The accesses of all facts together.
pub open spec fn total_hits(inputs: Seq<Fact>) -> nat
    decreases inputs.len(),
{
    if inputs.len() == 0 {
        0
    } else {
        total_hits(inputs.drop_last()) + inputs.last().access_count as nat
    }
}

pub open spec fn at_most_u32(n: nat) -> u32 {
    if n > u32::MAX {
        u32::MAX
    } else {
        n as u32
    }
}

/// The confidence of merged facts: the highest of any, and five more for each source
/// beyond those of the best-sourced one, up to 100.
pub open spec fn merged_confidence(inputs: Seq<Fact>) -> u8 {
    let distinct = merged_sources(inputs).len();
    let single = most_sources(inputs);
    let bonus = if distinct > single {
        5 * (distinct - single)
    } else {
        0
    };
    let sum = most_confidence(inputs) + bonus;
    if sum > 100 {
        100
    } else {
        sum as u8
    }
}

/// The fact that others are merged into.
pub open spec fn merged(inputs: Seq<Fact>, text: Seq<char>, now: Timestamp) -> Fact {
    Fact {
        fact: text,
        scope: inputs[0].scope,
        sources: merged_sources(inputs),
        confidence: merged_confidence(inputs),
        created_at: earliest(inputs),
        updated_at: now,
        last_accessed: latest(inputs),
        access_count: at_most_u32(total_hits(inputs)),
    }
}

/// A shelf without any of some keys.
pub open spec fn without_all(shelf: Shelf, keys: Seq<Seq<char>>) -> Shelf
    decreases keys.len(),
{
    if keys.len() == 0 {
        shelf
    } else {
        without_all(shelf, keys.drop_last()).without(keys.last())
    }
}

/// What a request to merge comes to. Only a merge that goes through changes the shelf.
pub open spec fn merge_answer(
    shelf: Shelf,
    keys: Seq<Seq<char>>,
    new_slug: Seq<char>,
    new_text: Seq<char>,
    now: Timestamp,
) -> Answer {
    let inputs = Seq::new(keys.len(), |i: int| shelf.get(keys[i]));
    let about = inputs[0].scope;
    let key = key_of(about, new_slug);
    if keys.len() < 2 {
        Answer { shelf, reply: "Error: merge_memories requires at least 2 keys"@ }
    } else if new_slug.len() == 0 || new_text.len() == 0 {
        Answer { shelf, reply: "Error: new_slug and new_fact must be non-empty"@ }
    } else if exists|i: int| 0 <= i < keys.len() && !shelf.has(#[trigger] keys[i]) {
        Answer { shelf, reply: "Error: one or more keys not found; aborting merge"@ }
    } else if exists|i: int|
        0 <= i < keys.len() && (#[trigger] inputs[i]).scope.tag() != about.tag() {
        Answer { shelf, reply: "Error: scope mismatch across merge inputs"@ }
    } else if exists|i: int|
        0 <= i < keys.len() && (#[trigger] inputs[i]).scope.subject() != about.subject() {
        Answer { shelf, reply: "Error: subject_id mismatch across merge inputs"@ }
    } else if shelf.has(key) && !keys.contains(key) {
        Answer {
            shelf,
            reply: "Error: new_key '"@ + key
                + "' collides with existing non-merged memory; choose another slug"@,
        }
    } else {
        Answer {
            shelf: without_all(shelf, keys).put(key, merged(inputs, new_text, now)),
            reply: "Merged "@ + text::decimal(keys.len()) + " memories into '"@ + key
                + "' (confidence="@ + text::decimal(merged_confidence(inputs) as nat) + ")"@,
        }
    }
}

pub fn count_real_sources(sources: &Vec<String>) -> (r: usize)
    ensures
        r == count_real(text::views(sources@)),
{
    let ghost all = text::views(sources@);
    let mut n: usize = 0;
    let mut i: usize = 0;
    while i < sources.len()
        invariant
            all == text::views(sources@),
            n <= i <= sources@.len(),
            n == count_real(all.take(i as int)),
        decreases sources@.len() - i,
    {
        assert(all.take(i + 1).drop_last() =~= all.take(i as int));
        if real_source(sources[i].as_str()) {
            n = n + 1;
        }
        i = i + 1;
    }
    assert(all.take(i as int) =~= all);
    n
}

fn join_sources(list: &mut Vec<String>, sources: &Vec<String>)
    ensures
        text::views(final(list)@) == joined_sources(
            text::views(old(list)@),
            text::views(sources@),
        ),
{
    let ghost all = text::views(sources@);
    let ghost start = text::views(list@);
    let mut i: usize = 0;
    while i < sources.len()
        invariant
            all == text::views(sources@),
            i <= sources@.len(),
            text::views(list@) == joined_sources(start, all.take(i as int)),
        decreases sources@.len() - i,
    {
        let ghost before = text::views(list@);
        assert(all.take(i + 1).drop_last() =~= all.take(i as int));
        if real_source(sources[i].as_str()) && !text::is_one_of(sources[i].as_str(), list) {
            list.push(sources[i].clone());
            assert(text::views(list@) =~= before.push(all[i as int]));
        }
        i = i + 1;
    }
    assert(all.take(i as int) =~= all);
}

/// The facts of some memories.
pub open spec fn facts_of(list: Seq<Memory>) -> Seq<Fact> {
    Seq::new(list.len(), |i: int| list[i]@)
}

fn all_have_tag(inputs: &Vec<Memory>, tag: &str) -> (r: bool)
    ensures
        r == forall|i: int|
            0 <= i < inputs@.len() ==> (#[trigger] facts_of(inputs@)[i]).scope.tag() == tag@,
{
    let ghost all = facts_of(inputs@);
    let mut i: usize = 0;
    while i < inputs.len()
        invariant
            all == facts_of(inputs@),
            i <= inputs@.len(),
            forall|j: int| 0 <= j < i ==> (#[trigger] all[j]).scope.tag() == tag@,
        decreases inputs@.len() - i,
    {
        if !text::same(inputs[i].scope.tag(), tag) {
            assert(all[i as int].scope.tag() != tag@);
            return false;
        }
        i = i + 1;
    }
    true
}

fn all_have_subject(inputs: &Vec<Memory>, subject: Option<&str>) -> (r: bool)
    ensures
        r == forall|i: int|
            0 <= i < inputs@.len() ==> (#[trigger] facts_of(inputs@)[i]).scope.subject()
                == text::opt_str_view(subject),
{
    let ghost all = facts_of(inputs@);
    let mut i: usize = 0;
    while i < inputs.len()
        invariant
            all == facts_of(inputs@),
            i <= inputs@.len(),
            forall|j: int|
                0 <= j < i ==> (#[trigger] all[j]).scope.subject() == text::opt_str_view(subject),
        decreases inputs@.len() - i,
    {
        let same = match (inputs[i].scope.subject_id(), subject) {
            (Some(a), Some(b)) => text::same(a, b),
            (None, None) => true,
            _ => false,
        };
        if !same {
            assert(all[i as int].scope.subject() != text::opt_str_view(subject));
            return false;
        }
        i = i + 1;
    }
    true
}

/// Merges the metadata of several memories of one scope.
fn merge_inputs(inputs: &Vec<Memory>, new_fact: &str, now: Timestamp) -> (r: Memory)
    requires
        inputs@.len() > 0,
    ensures
        r@ == merged(facts_of(inputs@), new_fact@, now),
{
    let ghost all = facts_of(inputs@);
    let mut sources: Vec<String> = Vec::new();
    let mut max_single: usize = 0;
    let mut max_conf: u8 = 0;
    let mut created_at = inputs[0].created_at;
    let mut last_accessed = inputs[0].last_accessed;
    let mut hits: u128 = 0;
    let mut i: usize = 0;
    proof {
        assert(all.take(0) =~= Seq::<Fact>::empty());
        assert(text::views(sources@) =~= Seq::<Seq<char>>::empty());
        assert(all.take(1)[0] == all[0]);
    }
    while i < inputs.len()
        invariant
            all == facts_of(inputs@),
            0 < inputs@.len(),
            i <= inputs@.len(),
            text::views(sources@) == merged_sources(all.take(i as int)),
            max_single == most_sources(all.take(i as int)),
            max_conf == most_confidence(all.take(i as int)),
            i == 0 ==> created_at == all[0].created_at && last_accessed == all[0].last_accessed,
            i > 0 ==> created_at == earliest(all.take(i as int)) && last_accessed == latest(
                all.take(i as int),
            ),
            hits == total_hits(all.take(i as int)),
            hits <= i * 0xffff_ffff,
        decreases inputs@.len() - i,
    {
        let m = &inputs[i];
        proof {
            assert(m@ == all[i as int]);
            assert(all.take(i + 1).drop_last() =~= all.take(i as int));
            assert(all.take(i + 1).last() == all[i as int]);
            assert(all.take(i + 1)[0] == all[0]);
        }
        join_sources(&mut sources, &m.sources);
        let n: usize = count_real_sources(&m.sources);
        if n > max_single {
            max_single = n;
        }
        if m.confidence > max_conf {
            max_conf = m.confidence;
        }
        if m.created_at.is_before(&created_at) {
            created_at = m.created_at;
        }
        if last_accessed.is_before(&m.last_accessed) {
            last_accessed = m.last_accessed;
        }
        hits = hits + m.access_count as u128;
        i = i + 1;
    }
    assert(all.take(i as int) =~= all);
    let distinct: usize = sources.len();
    assert(distinct == merged_sources(all).len());
    let extra: usize = if distinct > max_single {
        distinct - max_single
    } else {
        0
    };
    let confidence: u8 = if extra >= 20 {
        100
    } else {
        let sum: u32 = max_conf as u32 + 5 * extra as u32;
        if sum > 100 {
            100
        } else {
            sum as u8
        }
    };
    let access_count: u32 = if hits > 0xffff_ffff {
        u32::MAX
    } else {
        hits as u32
    };
    Memory {
        fact: new_fact.to_owned(),
        scope: inputs[0].scope.copy(),
        sources,
        confidence,
        created_at,
        updated_at: now,
        last_accessed,
        access_count,
    }
}

impl MemoryStore {
    /// Drops the memory under a key.
    pub fn drop_memory(&mut self, key: &str) -> (r: String)
        requires
            old(self).wf(),
        ensures
            final(self).wf(),
            final(self).identities == old(self).identities,
            final(self).version == old(self).version,
            ({
                let a = dropped(old(self).shelf(), key@);
                &&& final(self).shelf() == a.shelf
                &&& r@ == a.reply
            }),
    {
        if self.drop_key(key) {
            quoted_reply("Dropped memory '", key, "'")
        } else {
            quoted_reply("No memory with key '", key, "'")
        }
    }

    /// Shows the memory under a key.
    pub fn show_memory(&self, key: &str) -> (r: String)
        requires
            self.wf(),
        ensures
            r@ == shown(self.shelf(), key@),
    {
        match self.find(key) {
            Some(m) => {
                let mut s = key.to_owned();
                s.push_str(": ");
                s.push_str(m.fact.as_str());
                s.push_str(" (confidence=");
                let c = text::from_u64(m.confidence as u64);
                s.push_str(c.as_str());
                s.push_str(", sources=");
                let d = debug_sources(&m.sources);
                s.push_str(d.as_str());
                s.push_str(", last_accessed=");
                let t = m.last_accessed.to_text();
                s.push_str(t.as_str());
                s.push_str(", hits=");
                let h = text::from_u64(m.access_count as u64);
                s.push_str(h.as_str());
                s.push_str(")");
                s
            },
            None => quoted_reply("No memory with key '", key, "'"),
        }
    }

    /// The memories under some keys; `None` where one of them is missing.
    fn gather(&self, keys: &Vec<String>) -> (r: Option<Vec<Memory>>)
        requires
            self.wf(),
        ensures
            ({
                let ks = text::views(keys@);
                match r {
                    Some(v) => {
                        &&& facts_of(v@) == Seq::new(ks.len(), |i: int| self.shelf().get(ks[i]))
                        &&& forall|i: int| 0 <= i < ks.len() ==> self.shelf().has(#[trigger] ks[i])
                    },
                    None => exists|i: int|
                        0 <= i < ks.len() && !self.shelf().has(#[trigger] ks[i]),
                }
            }),
    {
        let ghost ks = text::views(keys@);
        let mut out: Vec<Memory> = Vec::new();
        let mut i: usize = 0;
        while i < keys.len()
            invariant
                self.wf(),
                ks == text::views(keys@),
                i <= keys@.len(),
                out@.len() == i,
                forall|j: int| 0 <= j < i ==> self.shelf().has(#[trigger] ks[j]),
                forall|j: int|
                    0 <= j < i ==> (#[trigger] out@[j])@ == self.shelf().get(ks[j]),
            decreases keys@.len() - i,
        {
            match self.find(keys[i].as_str()) {
                Some(m) => {
                    assert(self.shelf().has(ks[i as int]));
                    out.push(m.copy());
                },
                None => {
                    assert(!self.shelf().has(ks[i as int]));
                    return None;
                },
            }
            i = i + 1;
        }
        assert(facts_of(out@) =~= Seq::new(ks.len(), |i: int| self.shelf().get(ks[i])));
        Some(out)
    }

    /// Drops the memories under some keys.
    pub fn drop_all(&mut self, keys: &Vec<String>)
        requires
            old(self).wf(),
        ensures
            final(self).wf(),
            final(self).identities == old(self).identities,
            final(self).version == old(self).version,
            final(self).shelf() == without_all(old(self).shelf(), text::views(keys@)),
    {
        let ghost ks = text::views(keys@);
        let mut i: usize = 0;
        assert(ks.take(0) =~= Seq::<Seq<char>>::empty());
        while i < keys.len()
            invariant
                self.wf(),
                self.identities == old(self).identities,
                self.version == old(self).version,
                ks == text::views(keys@),
                i <= keys@.len(),
                self.shelf() == without_all(old(self).shelf(), ks.take(i as int)),
            decreases keys@.len() - i,
        {
            assert(ks.take(i + 1).drop_last() =~= ks.take(i as int));
            self.drop_key(keys[i].as_str());
            i = i + 1;
        }
        assert(ks.take(i as int) =~= ks);
    }

    /// Merges several memories of one scope and subject into a new one.
    pub fn merge_memories(
        &mut self,
        keys: &Vec<String>,
        new_slug: &str,
        new_fact: &str,
        now: Timestamp,
    ) -> (r: String)
        requires
            old(self).wf(),
        ensures
            final(self).wf(),
            final(self).identities == old(self).identities,
            final(self).version == old(self).version,
            ({
                let a = merge_answer(
                    old(self).shelf(),
                    text::views(keys@),
                    new_slug@,
                    new_fact@,
                    now,
                );
                &&& final(self).shelf() == a.shelf
                &&& r@ == a.reply
            }),
    {
        let ghost ks = text::views(keys@);
        let ghost shelf = self.shelf();
        let ghost ins = Seq::new(ks.len(), |i: int| shelf.get(ks[i]));
        if keys.len() < 2 {
            return "Error: merge_memories requires at least 2 keys".to_owned();
        }
        if text::char_count(new_slug) == 0 || text::char_count(new_fact) == 0 {
            return "Error: new_slug and new_fact must be non-empty".to_owned();
        }
        let inputs = match self.gather(keys) {
            Some(v) => v,
            None => {
                return "Error: one or more keys not found; aborting merge".to_owned();
            },
        };
        assert(facts_of(inputs@) == ins);
        assert(ins.len() == inputs@.len());
        let scope = inputs[0].scope.copy();
        assert(scope@ == ins[0].scope);
        if !all_have_tag(&inputs, scope.tag()) {
            return "Error: scope mismatch across merge inputs".to_owned();
        }
        if !all_have_subject(&inputs, scope.subject_id()) {
            return "Error: subject_id mismatch across merge inputs".to_owned();
        }
        let new_key = build_key(&scope, new_slug);
        if self.memories.contains_key(new_key.as_str()) && !text::is_one_of(
            new_key.as_str(),
            keys,
        ) {
            return quoted_reply(
                "Error: new_key '",
                new_key.as_str(),
                "' collides with existing non-merged memory; choose another slug",
            );
        }
        let m = merge_inputs(&inputs, new_fact, now);
        let mut reply = "Merged ".to_owned();
        let n = text::from_usize(keys.len());
        reply.push_str(n.as_str());
        reply.push_str(" memories into '");
        reply.push_str(new_key.as_str());
        reply.push_str("' (confidence=");
        let c = text::from_u64(m.confidence as u64);
        reply.push_str(c.as_str());
        reply.push_str(")");
        self.drop_all(keys);
        self.store(new_key, m);
        reply
    }
}

/// The most characters that an edited fact may have.
pub const MAX_FACT_CHARS: usize = 500;

/// What a request to edit asks for.
#[derive(Debug, Clone)]
pub struct EditRequest {
    pub fact: Option<String>,
    pub confidence_delta: Option<i64>,
    pub drop_source: Option<String>,
}

/// The contents of an `EditRequest`.
#[verifier::ext_equal]
pub ghost struct Edit {
    pub fact: Option<Seq<char>>,
    pub delta: Option<i64>,
    pub drop_source: Option<Seq<char>>,
}

impl EditRequest {
    pub open spec fn view(&self) -> Edit {
        Edit {
            fact: text::opt_view(self.fact),
            delta: self.confidence_delta,
            drop_source: text::opt_view(self.drop_source),
        }
    }
}

/// A confidence moved by a delta, kept from 0 to 100.
pub open spec fn moved_confidence(confidence: u8, delta: int) -> u8 {
    let sum = confidence + delta;
    if sum < 0 {
        0
    } else if sum > 100 {
        100
    } else {
        sum as u8
    }
}

/// A list without a text.
pub open spec fn removed_text(list: Seq<Seq<char>>, s: Seq<char>) -> Seq<Seq<char>>
    decreases list.len(),
{
    if list.len() == 0 {
        Seq::empty()
    } else {
        let rest = removed_text(list.drop_last(), s);
        if list.last() == s {
            rest
        } else {
            rest.push(list.last())
        }
    }
}

/// A fact after an edit.
pub open spec fn edited(f: Fact, e: Edit) -> Fact {
    Fact {
        fact: match e.fact {
            Some(t) => t,
            None => f.fact,
        },
        confidence: match e.delta {
            Some(d) => moved_confidence(f.confidence, d as int),
            None => f.confidence,
        },
        sources: match e.drop_source {
            Some(s) => removed_text(f.sources, s),
            None => f.sources,
        },
        ..f
    }
}

/// What a request to edit comes to. Only an edit that goes through changes the shelf.
pub open spec fn edit_answer(shelf: Shelf, key: Seq<char>, e: Edit) -> Answer {
    if e.fact is Some && e.fact->0.len() == 0 {
        Answer { shelf, reply: "Error: 'fact' must be non-empty"@ }
    } else if e.fact is Some && e.fact->0.len() > MAX_FACT_CHARS {
        Answer {
            shelf,
            reply: "Error: 'fact' too long ("@ + text::decimal(e.fact->0.len()) + " chars > 500)"@,
        }
    } else if e.delta is Some && !(-50 <= e.delta->0 <= 30) {
        Answer {
            shelf,
            reply: "Error: confidence_delta "@ + text::signed_decimal(e.delta->0 as int)
                + " out of range [-50, +30]"@,
        }
    } else if !shelf.has(key) {
        Answer { shelf, reply: no_memory_text(key) }
    } else {
        let f = edited(shelf.get(key), e);
        Answer {
            shelf: shelf.put(key, f),
            reply: "Edited memory '"@ + key + "' (confidence="@ + text::decimal(
                f.confidence as nat,
            ) + ")"@,
        }
    }
}

fn remove_text(list: &Vec<String>, s: &str) -> (r: Vec<String>)
    ensures
        text::views(r@) == removed_text(text::views(list@), s@),
{
    let ghost all = text::views(list@);
    let mut out: Vec<String> = Vec::new();
    let mut i: usize = 0;
    assert(text::views(out@) =~= Seq::<Seq<char>>::empty());
    while i < list.len()
        invariant
            all == text::views(list@),
            i <= list@.len(),
            text::views(out@) == removed_text(all.take(i as int), s@),
        decreases list@.len() - i,
    {
        let ghost before = text::views(out@);
        assert(all.take(i + 1).drop_last() =~= all.take(i as int));
        if !text::same(list[i].as_str(), s) {
            out.push(list[i].clone());
            assert(text::views(out@) =~= before.push(all[i as int]));
        }
        i = i + 1;
    }
    assert(all.take(i as int) =~= all);
    out
}

/// The edit that a tool call carries.
pub open spec fn edit_of(arguments: Seq<char>) -> Edit {
    Edit {
        fact: json::string_member(arguments, "fact"@),
        delta: json::integer_member(arguments, "confidence_delta"@),
        drop_source: json::string_member(arguments, "drop_source"@),
    }
}

/// What a tool call of the consolidator comes to.
pub open spec fn consolidator_answer(shelf: Shelf, call: crate::llm::Call, now: Timestamp) -> Answer {
    let key = json::string_member_or_empty(call.arguments, "key"@);
    match call.parse_error {
        Some(e) => Answer { shelf, reply: bad_arguments_text(call.name, e) },
        None => if call.name == "drop_memory"@ {
            dropped(shelf, key)
        } else if call.name == "merge_memories"@ {
            merge_answer(
                shelf,
                json::strings_member(call.arguments, "keys"@),
                json::string_member_or_empty(call.arguments, "new_slug"@),
                json::string_member_or_empty(call.arguments, "new_fact"@),
                now,
            )
        } else if call.name == "edit_memory"@ {
            edit_answer(shelf, key, edit_of(call.arguments))
        } else if call.name == "get_memory"@ {
            Answer { shelf, reply: shown(shelf, key) }
        } else {
            Answer { shelf, reply: "Unknown consolidator tool: "@ + call.name }
        },
    }
}

impl MemoryStore {
    /// Edits the memory under a key: its text, its confidence, its sources.
    pub fn edit_memory(&mut self, key: &str, e: &EditRequest) -> (r: String)
        requires
            old(self).wf(),
        ensures
            final(self).wf(),
            final(self).identities == old(self).identities,
            final(self).version == old(self).version,
            ({
                let a = edit_answer(old(self).shelf(), key@, e@);
                &&& final(self).shelf() == a.shelf
                &&& r@ == a.reply
            }),
    {
        if let Some(f) = &e.fact {
            let len: usize = text::char_count(f.as_str());
            if len == 0 {
                return "Error: 'fact' must be non-empty".to_owned();
            }
            if len > MAX_FACT_CHARS {
                return quoted_reply(
                    "Error: 'fact' too long (",
                    text::from_usize(len).as_str(),
                    " chars > 500)",
                );
            }
        }
        if let Some(d) = e.confidence_delta {
            if !(-50 <= d && d <= 30) {
                return quoted_reply(
                    "Error: confidence_delta ",
                    text::from_i64(d).as_str(),
                    " out of range [-50, +30]",
                );
            }
        }
        let mut m = match self.find(key) {
            Some(m) => m.copy(),
            None => {
                return quoted_reply("No memory with key '", key, "'");
            },
        };
        let ghost before = m@;
        if let Some(f) = &e.fact {
            m.fact = f.clone();
        }
        if let Some(d) = e.confidence_delta {
            let sum: i64 = m.confidence as i64 + d;
            m.confidence =
            if sum < 0 {
                0
            } else if sum > 100 {
                100
            } else {
                sum as u8
            };
        }
        if let Some(src) = &e.drop_source {
            m.sources = remove_text(&m.sources, src.as_str());
        }
        assert(m@ =~= edited(before, e@));
        let mut reply = quoted_reply("Edited memory '", key, "' (confidence=");
        let c = text::from_u64(m.confidence as u64);
        reply.push_str(c.as_str());
        reply.push_str(")");
        self.store(key.to_owned(), m);
        reply
    }

    /// Executes a tool call of the consolidator. Arguments that could not be read are
    /// answered with a text, so that the model can send them again.
    pub fn execute_consolidator_tool(&mut self, call: &ToolCall, now: Timestamp) -> (r: String)
        requires
            old(self).wf(),
        ensures
            final(self).wf(),
            final(self).identities == old(self).identities,
            final(self).version == old(self).version,
            ({
                let a = consolidator_answer(old(self).shelf(), call@, now);
                &&& final(self).shelf() == a.shelf
                &&& r@ == a.reply
            }),
    {
        if let Some(err) = &call.arguments_parse_error {
            return bad_arguments(call.name.as_str(), err.error.as_str(), err.raw.as_str());
        }
        let args = call.arguments.as_str();
        let name = call.name.as_str();
        let key = json::get_string_or_empty(args, "key");
        if text::same(name, "drop_memory") {
            self.drop_memory(key.as_str())
        } else if text::same(name, "merge_memories") {
            let keys = json::get_strings(args, "keys");
            let new_slug = json::get_string_or_empty(args, "new_slug");
            let new_fact = json::get_string_or_empty(args, "new_fact");
            self.merge_memories(&keys, new_slug.as_str(), new_fact.as_str(), now)
        } else if text::same(name, "edit_memory") {
            let e = EditRequest {
                fact: json::get_string(args, "fact"),
                confidence_delta: json::get_integer(args, "confidence_delta"),
                drop_source: json::get_string(args, "drop_source"),
            };
            assert(e@ =~= edit_of(call.arguments@));
            self.edit_memory(key.as_str(), &e)
        } else if text::same(name, "get_memory") {
            self.show_memory(key.as_str())
        } else {
            let mut s = "Unknown consolidator tool: ".to_owned();
            s.push_str(name);
            s
        }
    }
}

// ---------------------------------------------------------------------------
// Laws
// ---------------------------------------------------------------------------

proof fn lemma_count_push(facts: Seq<Fact>, f: Fact, tag: Seq<char>)
    ensures
        count_in(facts.push(f), tag) == count_in(facts, tag) + if f.scope.tag() == tag {
            1nat
        } else {
            0nat
        },
{
    assert(facts.push(f).drop_last() =~= facts);
}

proof fn lemma_count_remove(facts: Seq<Fact>, i: int, tag: Seq<char>)
    requires
        0 <= i < facts.len(),
    ensures
        count_in(facts.remove(i), tag) == count_in(facts, tag) - if facts[i].scope.tag() == tag {
            1int
        } else {
            0int
        },
    decreases facts.len(),
{
    if i == facts.len() - 1 {
        assert(facts.remove(i) =~= facts.drop_last());
    } else {
        lemma_count_remove(facts.drop_last(), i, tag);
        assert(facts.remove(i).drop_last() =~= facts.drop_last().remove(i));
        assert(facts.remove(i).last() == facts.last());
    }
}

proof fn lemma_count_update(facts: Seq<Fact>, i: int, f: Fact, tag: Seq<char>)
    requires
        0 <= i < facts.len(),
        f.scope == facts[i].scope,
    ensures
        count_in(facts.update(i, f), tag) == count_in(facts, tag),
    decreases facts.len(),
{
    if i == facts.len() - 1 {
        assert(facts.update(i, f).drop_last() =~= facts.drop_last());
    } else {
        lemma_count_update(facts.drop_last(), i, f, tag);
        assert(facts.update(i, f).drop_last() =~= facts.drop_last().update(i, f));
    }
}

pub proof fn lemma_put(s: Shelf, key: Seq<char>, f: Fact)
    requires
        s.wf(),
    ensures
        s.put(key, f).wf(),
        s.put(key, f).has(key),
        s.put(key, f).get(key) == f,
        forall|k: Seq<char>| k != key ==> (#[trigger] s.put(key, f).has(k) <==> s.has(k)),
        forall|k: Seq<char>| k != key && s.has(k) ==> #[trigger] s.put(key, f).get(k) == s.get(k),
{
    let t = s.put(key, f);
    if s.has(key) {
        table::lemma_index_of(s.keys, s.keys.index_of(key));
        assert forall|k: Seq<char>| k != key && s.has(k) implies #[trigger] t.get(k) == s.get(k) by {
            assert(s.keys.index_of(k) != s.keys.index_of(key));
        }
    } else {
        let n = s.keys.len() as int;
        assert(t.keys[n] == key);
        table::lemma_index_of(t.keys, n);
        assert forall|k: Seq<char>| k != key implies (#[trigger] t.has(k) <==> s.has(k)) by {
            if s.has(k) {
                assert(t.keys[s.keys.index_of(k)] == k);
            }
            if t.has(k) {
                assert(s.keys[t.keys.index_of(k)] == k);
            }
        }
        assert forall|k: Seq<char>| k != key && s.has(k) implies #[trigger] t.get(k) == s.get(k) by {
            let i = s.keys.index_of(k);
            assert(t.keys[i] == k);
            table::lemma_index_of(t.keys, i);
        }
    }
}

pub proof fn lemma_without(s: Shelf, key: Seq<char>)
    requires
        s.wf(),
    ensures
        s.without(key).wf(),
        !s.without(key).has(key),
        forall|k: Seq<char>| k != key ==> (#[trigger] s.without(key).has(k) <==> s.has(k)),
        forall|k: Seq<char>| k != key && s.has(k) ==> #[trigger] s.without(key).get(k) == s.get(k),
{
    if s.has(key) {
        let i = s.keys.index_of(key);
        let a = s.keys;
        let b = s.without(key).keys;
        let t = s.without(key);
        assert forall|x: int, y: int| 0 <= x < b.len() && 0 <= y < b.len() && x != y implies b[x]
            != b[y] by {
            let p = if x < i { x } else { x + 1 };
            let q = if y < i { y } else { y + 1 };
            assert(b[x] == a[p] && b[y] == a[q]);
        }
        if b.contains(key) {
            let x = b.index_of(key);
            let p = if x < i { x } else { x + 1 };
            assert(a[p] == key && a[i] == key);
        }
        assert forall|k: Seq<char>| k != key implies (#[trigger] t.has(k) <==> s.has(k)) by {
            if t.has(k) {
                let x = b.index_of(k);
                let p = if x < i { x } else { x + 1 };
                assert(a[p] == k);
            }
            if s.has(k) {
                let x = a.index_of(k);
                let p = if x < i { x } else { x - 1 };
                assert(b[p] == k);
            }
        }
        assert forall|k: Seq<char>| k != key && s.has(k) implies #[trigger] t.get(k) == s.get(k) by {
            let x = a.index_of(k);
            let p = if x < i { x } else { x - 1 };
            assert(b[p] == k);
            table::lemma_index_of(b, p);
            assert(t.facts[p] == s.facts[x]);
        }
    }
}

/// Saving keeps every scope within its limit: no scope grows beyond the larger of its
/// limit and what it held before.
pub proof fn law_save_keeps_caps(shelf: Shelf, save: Save, by: Asker, about: scope::About)
    requires
        shelf.wf(),
        by.scores.len() == shelf.facts.len(),
    ensures
        ({
            let before = count_in(shelf.facts, about.tag());
            let after = count_in(saved(shelf, save, by).shelf.facts, about.tag());
            after <= before || after <= by.caps.of(about)
        }),
{
    let tag = about.tag();
    match requested_scope(save.scope, save.subject) {
        Ok(target) => {
            let key = key_of(target, save.slug);
            scope::lemma_tags_differ();
            if shelf.has(key) {
                let f = reported_again(shelf.get(key), save.fact, by.username, by.now);
                lemma_count_update(shelf.facts, shelf.keys.index_of(key), f, tag);
            } else {
                law_lowest_is_minimal(shelf.facts, by.scores, target.tag());
                let seed = scope::seed_of(scope::trust_of(by.role, target, by.id));
                let f = new_fact(save.fact, target, by.username, seed, by.now);
                lemma_count_push(shelf.facts, f, tag);
                match lowest(shelf.facts, by.scores, target.tag()) {
                    Some(i) => {
                        table::lemma_index_of(shelf.keys, i);
                        lemma_count_remove(shelf.facts, i, tag);
                        lemma_without(shelf, shelf.keys[i]);
                        lemma_count_push(shelf.without(shelf.keys[i]).facts, f, tag);
                    },
                    None => {},
                }
            }
        },
        Err(e) => {},
    }
}

/// A save that a speaker is not entitled to changes nothing.
pub proof fn law_refused_save_changes_nothing(shelf: Shelf, save: Save, by: Asker)
    requires
        requested_scope(save.scope, save.subject) matches Ok(about) ==> !scope::may_write(
            by.role,
            about,
            by.id,
        ),
    ensures
        saved(shelf, save, by).shelf == shelf,
{
}

/// What was saved is what is read back, unless the store is full and nothing of the
/// scope can make room.
pub proof fn law_saved_is_read_back(shelf: Shelf, save: Save, by: Asker, about: scope::About)
    requires
        shelf.wf(),
        save.slug.len() > 0,
        save.fact.len() > 0,
        requested_scope(save.scope, save.subject) == Ok::<scope::About, Seq<char>>(about),
        scope::may_write(by.role, about, by.id),
        by.caps.of(about) > 0,
        by.scores.len() == shelf.facts.len(),
    ensures
        ({
            let after = saved(shelf, save, by).shelf;
            let key = key_of(about, save.slug);
            &&& after.wf()
            &&& after.has(key)
            &&& after.get(key).fact == save.fact
            &&& after.get(key).sources.contains(by.username)
        }),
{
    let key = key_of(about, save.slug);
    if shelf.has(key) {
        let old = shelf.get(key);
        let f = reported_again(old, save.fact, by.username, by.now);
        if !old.sources.contains(by.username) {
            assert(f.sources[f.sources.len() - 1] == by.username);
        }
        lemma_put(shelf, key, f);
    } else {
        law_lowest_is_minimal(shelf.facts, by.scores, about.tag());
        let seed = scope::seed_of(scope::trust_of(by.role, about, by.id));
        let f = new_fact(save.fact, about, by.username, seed, by.now);
        assert(f.sources[0] == by.username);
        lemma_put(shelf, key, f);
        match lowest(shelf.facts, by.scores, about.tag()) {
            Some(i) => {
                lemma_without(shelf, shelf.keys[i]);
                lemma_put(shelf.without(shelf.keys[i]), key, f);
            },
            None => {},
        }
    }
}

/// Reporting a known fact again never changes its confidence.
pub proof fn law_repeat_keeps_confidence(shelf: Shelf, save: Save, by: Asker, about: scope::About)
    requires
        shelf.wf(),
        requested_scope(save.scope, save.subject) == Ok::<scope::About, Seq<char>>(about),
        shelf.has(key_of(about, save.slug)),
    ensures
        ({
            let key = key_of(about, save.slug);
            let after = saved(shelf, save, by).shelf;
            after.has(key) && after.get(key).confidence == shelf.get(key).confidence
        }),
{
    let key = key_of(about, save.slug);
    lemma_put(shelf, key, reported_again(shelf.get(key), save.fact, by.username, by.now));
}

proof fn lemma_most_confidence(inputs: Seq<Fact>, i: int)
    requires
        0 <= i < inputs.len(),
    ensures
        inputs[i].confidence <= most_confidence(inputs),
    decreases inputs.len(),
{
    if i < inputs.len() - 1 {
        lemma_most_confidence(inputs.drop_last(), i);
    }
}

/// A merge is at least as confident as each of its inputs, up to 100, and never more
/// than 100.
pub proof fn law_merge_confidence(inputs: Seq<Fact>, i: int)
    requires
        0 <= i < inputs.len(),
        inputs[i].confidence <= 100,
    ensures
        inputs[i].confidence <= merged_confidence(inputs) <= 100,
{
    lemma_most_confidence(inputs, i);
}

/// An edit leaves the confidence from 0 to 100, and everything under other keys as it
/// was.
pub proof fn law_edit_is_local(shelf: Shelf, key: Seq<char>, e: Edit, other: Seq<char>)
    requires
        shelf.wf(),
        other != key,
    ensures
        ({
            let after = edit_answer(shelf, key, e).shelf;
            &&& after.has(other) == shelf.has(other)
            &&& shelf.has(other) ==> after.get(other) == shelf.get(other)
            &&& after.has(key) == shelf.has(key)
            &&& shelf.has(key) && shelf.get(key).confidence <= 100 ==> after.get(key).confidence
                <= 100
        }),
{
    if shelf.has(key) {
        lemma_put(shelf, key, edited(shelf.get(key), e));
    }
}

/// A key that was dropped is gone, and all others stay.
pub proof fn law_drop_removes_only_key(shelf: Shelf, key: Seq<char>, other: Seq<char>)
    requires
        shelf.wf(),
    ensures
        ({
            let after = dropped(shelf, key).shelf;
            &&& !after.has(key)
            &&& other != key ==> (after.has(other) <==> shelf.has(other))
            &&& other != key && shelf.has(other) ==> after.get(other) == shelf.get(other)
        }),
{
    lemma_without(shelf, key);
}


// ---------------------------------------------------------------------------
// What is kept
// ---------------------------------------------------------------------------

/// A user is known under the name that they were last seen with; that is news where it was
/// another one or none, and not when it is seen again.
pub proof fn law_users_are_known_by_their_last_name(
    names: Map<Seq<char>, Known>,
    id: Seq<char>,
    username: Seq<char>,
    other: Seq<char>,
    now: Timestamp,
)
    ensures
        observed(names, id, username, now)[id].username == username,
        observed(names, id, username, now)[id].updated_at == now,
        observed(names, id, username, now).contains_key(id),
        !is_news(observed(names, id, username, now), id, username),
        username != other ==> is_news(observed(names, id, username, now), id, other),
        !names.contains_key(id) ==> is_news(names, id, username),
        other != id && names.contains_key(other) ==> observed(names, id, username, now)[other]
            == names[other],
{
}

/// A key tells the kind of scope, the user where there is one, and the slug.
pub proof fn law_keys_tell_the_scope(id: Seq<char>, slug: Seq<char>)
    ensures
        key_of(scope::About::User(id), slug) == "user:"@ + id + ":"@ + slug_of(slug),
        key_of(scope::About::Pref(id), slug) == "pref:"@ + id + ":"@ + slug_of(slug),
        key_of(scope::About::Lore, slug) == "lore::"@ + slug_of(slug),
{
}

/// A slug has the letters and digits of the label in lower case, in their order: one more of
/// them at the end is taken over, and one other character changes nothing.
pub proof fn law_slug_keeps_letters(s: Seq<char>, c: char)
    ensures
        'a' <= c <= 'z' || '0' <= c <= '9' ==> slug_of(s.push(c)) == dashed(s).push(c),
        'A' <= c <= 'Z' ==> slug_of(s.push(c)) == dashed(s).push(text::lower_char(c)),
        !text::is_letter(c) && !text::is_digit(c) ==> slug_of(s.push(c)) == slug_of(s),
        slug_of(s) == dashed(s) || dashed(s) == slug_of(s).push('-'),
{
    assert(s.push(c).drop_last() =~= s);
    let r = dashed(s);
    assert(r.push('-').drop_last() =~= r);
    assert(dashed(s).push(text::lower_char(c)).last() == text::lower_char(c));
    if r.len() > 0 && r.last() == '-' {
        assert(r.drop_last().push('-') =~= r);
    }
}

/// Each kind of scope has its own limit, and a fact counts for the kind of its scope.
pub proof fn law_limits_are_per_scope(facts: Seq<Fact>, f: Fact, caps: Caps, id: Seq<char>)
    ensures
        caps.of(scope::About::User(id)) == caps.max_user,
        caps.of(scope::About::Lore) == caps.max_lore,
        caps.of(scope::About::Pref(id)) == caps.max_pref,
        count_in(facts.push(f), f.scope.tag()) == count_in(facts, f.scope.tag()) + 1,
        forall|tag: Seq<char>|
            tag != f.scope.tag() ==> #[trigger] count_in(facts.push(f), tag) == count_in(
                facts,
                tag,
            ),
        count_in(Seq::empty(), f.scope.tag()) == 0,
{
    assert(facts.push(f).drop_last() =~= facts);
}

/// A fact goes before another where its score is lower, or where it was accessed earlier and
/// the scores are the same.
pub proof fn law_old_and_weak_go_first(facts: Seq<Fact>, scores: Seq<u64>, a: int, b: int)
    ensures
        scores[a] < scores[b] ==> goes_first(facts, scores, a, b),
        scores[a] > scores[b] ==> !goes_first(facts, scores, a, b),
        scores[a] == scores[b] ==> (goes_first(facts, scores, a, b) <==> facts[a].last_accessed@
            < facts[b].last_accessed@),
{
}

/// A new fact is kept with its text and its scope, the speaker as its only source, the time,
/// and a confidence of 90 where a moderator or the broadcaster speaks of something else than
/// themselves, else of 70.
pub proof fn law_new_facts_are_kept(shelf: Shelf, save: Save, by: Asker, about: scope::About)
    requires
        shelf.wf(),
        save.slug.len() > 0,
        save.fact.len() > 0,
        requested_scope(save.scope, save.subject) == Ok::<scope::About, Seq<char>>(about),
        scope::may_write(by.role, about, by.id),
        !shelf.has(key_of(about, save.slug)),
        count_in(shelf.facts, about.tag()) < by.caps.of(about),
    ensures
        ({
            let a = saved(shelf, save, by);
            let key = key_of(about, save.slug);
            let f = a.shelf.get(key);
            &&& a.shelf.keys == shelf.keys.push(key)
            &&& a.shelf.facts == shelf.facts.push(f)
            &&& f.fact == save.fact && f.scope == about && f.sources == seq![by.username]
            &&& f.created_at == by.now && f.updated_at == by.now && f.last_accessed == by.now
            &&& f.access_count == 0
            &&& f.confidence == if by.role != scope::UserRole::Regular && about.subject() != Some(
                by.id,
            ) {
                90u8
            } else {
                70u8
            }
            &&& text::has(a.reply, key)
        }),
{
    broadcast use text::group_parts;

    let key = key_of(about, save.slug);
    let seed = scope::seed_of(scope::trust_of(by.role, about, by.id));
    lemma_put(shelf, key, new_fact(save.fact, about, by.username, seed, by.now));
}

/// Where a scope is full, one fact makes room: one of the same kind of scope before which no
/// other goes. All others stay.
pub proof fn law_room_is_made_in_the_scope(
    shelf: Shelf,
    save: Save,
    by: Asker,
    about: scope::About,
    other: Seq<char>,
)
    requires
        shelf.wf(),
        save.slug.len() > 0,
        save.fact.len() > 0,
        requested_scope(save.scope, save.subject) == Ok::<scope::About, Seq<char>>(about),
        scope::may_write(by.role, about, by.id),
        !shelf.has(key_of(about, save.slug)),
        count_in(shelf.facts, about.tag()) >= by.caps.of(about),
        shelf.has(other),
    ensures
        ({
            let after = saved(shelf, save, by).shelf;
            let gone = !after.has(other);
            &&& gone ==> shelf.get(other).scope.tag() == about.tag() && lowest(
                shelf.facts,
                by.scores,
                about.tag(),
            ) == Some(shelf.keys.index_of(other))
            &&& !gone ==> after.get(other) == shelf.get(other)
            &&& shelf.get(other).scope.tag() != about.tag() ==> !gone
        }),
{
    let key = key_of(about, save.slug);
    let seed = scope::seed_of(scope::trust_of(by.role, about, by.id));
    let f = new_fact(save.fact, about, by.username, seed, by.now);
    law_lowest_is_minimal(shelf.facts, by.scores, about.tag());
    match lowest(shelf.facts, by.scores, about.tag()) {
        Some(i) => {
            table::lemma_index_of(shelf.keys, i);
            lemma_without(shelf, shelf.keys[i]);
            lemma_put(shelf.without(shelf.keys[i]), key, f);
        },
        None => {},
    }
}

/// A fact that is reported again has the new text and the new time of change, and the speaker
/// among its sources, once; all else about it stays, and so do all other facts.
pub proof fn law_repeated_facts_are_renewed(
    shelf: Shelf,
    save: Save,
    by: Asker,
    about: scope::About,
    other: Seq<char>,
)
    requires
        shelf.wf(),
        save.slug.len() > 0,
        save.fact.len() > 0,
        requested_scope(save.scope, save.subject) == Ok::<scope::About, Seq<char>>(about),
        scope::may_write(by.role, about, by.id),
        shelf.has(key_of(about, save.slug)),
    ensures
        ({
            let key = key_of(about, save.slug);
            let after = saved(shelf, save, by).shelf;
            let f = shelf.get(key);
            let g = after.get(key);
            &&& after.keys == shelf.keys
            &&& g.fact == save.fact && g.updated_at == by.now
            &&& g.scope == f.scope && g.created_at == f.created_at && g.last_accessed
                == f.last_accessed && g.access_count == f.access_count && g.confidence
                == f.confidence
            &&& f.sources.contains(by.username) ==> g.sources == f.sources
            &&& !f.sources.contains(by.username) ==> g.sources == f.sources.push(by.username)
            &&& other != key && shelf.has(other) ==> after.get(other) == shelf.get(other)
        }),
{
    let key = key_of(about, save.slug);
    lemma_put(shelf, key, reported_again(shelf.get(key), save.fact, by.username, by.now));
}

/// What a call asks to save is read from its arguments; facts about users need a user, facts
/// about the channel must have none, and other scopes are not known.
pub proof fn law_saves_are_read(arguments: Seq<char>, id: Seq<char>, tag: Seq<char>)
    ensures
        save_of(arguments).subject == json::string_member(arguments, "subject_id"@),
        save_of(arguments).scope == json::string_member_or_empty(arguments, "scope"@),
        save_of(arguments).slug == json::string_member_or_empty(arguments, "slug"@),
        save_of(arguments).fact == json::string_member_or_empty(arguments, "fact"@),
        requested_scope("user"@, Some(id)) == Ok::<scope::About, Seq<char>>(
            scope::About::User(id),
        ),
        requested_scope("pref"@, Some(id)) == Ok::<scope::About, Seq<char>>(
            scope::About::Pref(id),
        ),
        requested_scope("lore"@, None) == Ok::<scope::About, Seq<char>>(scope::About::Lore),
        requested_scope("user"@, None) is Err,
        requested_scope("pref"@, None) is Err,
        requested_scope("lore"@, Some(id)) is Err,
        tag != "user"@ && tag != "pref"@ && tag != "lore"@ ==> requested_scope(tag, None) is Err
            && requested_scope(tag, Some(id)) is Err,
{
    scope::lemma_tags_differ();
}

/// A call of the extractor saves or lists and does nothing else; one that cannot be read
/// changes nothing and is told what is wrong.
pub proof fn law_extractor_saves_and_lists(shelf: Shelf, call: crate::llm::Call, by: Asker)
    ensures
        ({
            let a = extractor_answer(shelf, call, by);
            &&& call.parse_error matches Some(e) ==> a.shelf == shelf && text::has(a.reply, e.error)
                && text::has(a.reply, e.raw)
            &&& call.parse_error is None && call.name == "save_memory"@ ==> a == saved(
                shelf,
                save_of(call.arguments),
                by,
            )
            &&& call.parse_error is None && call.name != "save_memory"@ ==> a.shelf == shelf
            &&& call.parse_error is None && call.name == "get_memories"@ && call.name
                != "save_memory"@ ==> a.reply == listing(
                shelf,
                json::string_member_or_empty(call.arguments, "scope"@),
                json::string_member(call.arguments, "subject_id"@),
            )
        }),
{
    broadcast use text::group_parts;

}

/// A list of facts holds the line of each fact of the scope, and of the user where one is
/// asked for; each line tells key, text and confidence.
pub proof fn law_facts_are_listed(
    shelf: Shelf,
    tag: Seq<char>,
    subject: Option<Seq<char>>,
    i: int,
)
    requires
        shelf.wf(),
        0 <= i < shelf.facts.len(),
    ensures
        shelf.facts[i].scope.tag() == tag && (subject is None || shelf.facts[i].scope.subject()
            == subject) ==> text::has(
            listing(shelf, tag, subject),
            memory_line(shelf.keys[i], shelf.facts[i]),
        ),
        text::has_prefix(
            memory_line(shelf.keys[i], shelf.facts[i]),
            "- "@ + shelf.keys[i] + ": "@ + shelf.facts[i].fact,
        ),
        text::has(
            memory_line(shelf.keys[i], shelf.facts[i]),
            text::decimal(shelf.facts[i].confidence as nat),
        ),
{
    broadcast use text::group_parts;

    let f = shelf.facts[i];
    if f.scope.tag() == tag && (subject is None || f.scope.subject() == subject) {
        let lines = listed_lines(shelf.keys, shelf.facts, tag, subject);
        lemma_line_is_listed(shelf.keys, shelf.facts, tag, subject, i);
        law_sorted_texts_are_the_same(lines, memory_line(shelf.keys[i], f));
        let all = sorted_texts(lines);
        let k = all.index_of(memory_line(shelf.keys[i], f));
        text::law_joined_holds_each(all, "\n"@, k);
    }
}

proof fn lemma_line_is_listed(
    keys: Seq<Seq<char>>,
    facts: Seq<Fact>,
    tag: Seq<char>,
    subject: Option<Seq<char>>,
    i: int,
)
    requires
        0 <= i < facts.len(),
        is_listed(facts[i], tag, subject),
    ensures
        listed_lines(keys, facts, tag, subject).contains(memory_line(keys[i], facts[i])),
    decreases facts.len(),
{
    let all = listed_lines(keys, facts, tag, subject);
    let line = memory_line(keys[i], facts[i]);
    if i < facts.len() - 1 {
        let d = facts.drop_last();
        lemma_line_is_listed(keys, d, tag, subject, i);
        let rest = listed_lines(keys, d, tag, subject);
        let k = rest.index_of(memory_line(keys[i], d[i]));
        assert(all[k] == line);
    } else {
        assert(all[all.len() - 1] == line);
    }
}

/// Texts that are put in order are the same texts, and each comes after those before it.
pub proof fn law_sorted_texts_are_the_same(list: Seq<Seq<char>>, x: Seq<char>)
    ensures
        sorted_texts(list).len() == list.len(),
        sorted_texts(list).contains(x) <==> list.contains(x),
        forall|i: int, j: int|
            0 <= i < j < list.len() ==> text::le(
                #[trigger] sorted_texts(list)[i],
                #[trigger] sorted_texts(list)[j],
            ),
{
    let s = Seq::new(list.len(), |i: int| order::Place { rank: 0, key: list[i], index: 0 });
    let t = order::sorted(s);
    order::lemma_sorted(s);
    let r = sorted_texts(list);
    assert(r.len() == t.len());
    if list.contains(x) {
        let i = list.index_of(x);
        assert(s[i].key == x);
        assert(s.contains(s[i]));
        assert(t.contains(s[i]));
        let k = t.index_of(s[i]);
        assert(r[k] == x);
    }
    if r.contains(x) {
        let k = r.index_of(x);
        assert(t[k].key == x);
        assert(t.contains(t[k]));
        assert(s.contains(t[k]));
        let i = s.index_of(t[k]);
        assert(list[i] == x);
    }
    assert forall|i: int, j: int| 0 <= i < j < list.len() implies text::le(
        #[trigger] r[i],
        #[trigger] r[j],
    ) by {
        let f = order::in_order();
        assert(f(t[i], t[j]));
        assert(t.contains(t[i]) && t.contains(t[j]));
        assert(s.contains(t[i]) && s.contains(t[j]));
        assert(t[i].rank == 0 && t[j].rank == 0);
        text::lemma_le_reflexive(r[i]);
    }
}

/// Merged facts have the text that is given, the scope of the first, the earliest time of
/// creation, the latest of access, and all accesses together.
pub proof fn law_merge_takes_the_most(inputs: Seq<Fact>, text: Seq<char>, now: Timestamp, i: int)
    requires
        0 <= i < inputs.len(),
    ensures
        ({
            let m = merged(inputs, text, now);
            &&& m.fact == text && m.updated_at == now && m.scope == inputs[0].scope
            &&& m.created_at@ <= inputs[i].created_at@
            &&& inputs[i].last_accessed@ <= m.last_accessed@
            &&& exists|k: int| 0 <= k < inputs.len() && (#[trigger] inputs[k]).created_at
                == m.created_at
            &&& exists|k: int|
                0 <= k < inputs.len() && (#[trigger] inputs[k]).last_accessed == m.last_accessed
            &&& inputs[i].access_count <= m.access_count
        }),
{
    lemma_merge_bounds(inputs, i);
}

proof fn lemma_merge_bounds(inputs: Seq<Fact>, i: int)
    requires
        0 <= i < inputs.len(),
    ensures
        earliest(inputs)@ <= inputs[i].created_at@,
        inputs[i].last_accessed@ <= latest(inputs)@,
        exists|k: int| 0 <= k < inputs.len() && (#[trigger] inputs[k]).created_at == earliest(
            inputs,
        ),
        exists|k: int| 0 <= k < inputs.len() && (#[trigger] inputs[k]).last_accessed == latest(
            inputs,
        ),
        inputs[i].access_count <= total_hits(inputs),
    decreases inputs.len(),
{
    if inputs.len() > 1 {
        let d = inputs.drop_last();
        let n = inputs.len() - 1;
        let j = if i < n {
            i
        } else {
            0
        };
        lemma_merge_bounds(d, j);
        assert(d[j] == inputs[j]);
        let a = choose|k: int| 0 <= k < d.len() && (#[trigger] d[k]).created_at == earliest(d);
        assert(inputs[a] == d[a]);
        let b = choose|k: int| 0 <= k < d.len() && (#[trigger] d[k]).last_accessed == latest(d);
        assert(inputs[b] == d[b]);
        assert(inputs[n] == inputs.last());
    } else {
        assert(inputs.drop_last().len() == 0);
        assert(inputs[0] == inputs[0]);
    }
}

/// The accesses of merged facts are added up, as far as there is room for the number.
pub proof fn law_hits_are_added_up(inputs: Seq<Fact>, f: Fact)
    ensures
        total_hits(inputs.push(f)) == total_hits(inputs) + f.access_count,
        total_hits(Seq::empty()) == 0,
        total_hits(inputs) <= u32::MAX ==> at_most_u32(total_hits(inputs)) == total_hits(inputs),
{
    assert(inputs.push(f).drop_last() =~= inputs);
}

/// The sources of merged facts are those of all of them, each once, but for the stand-ins for
/// unknown ones.
pub proof fn law_merge_joins_sources(list: Seq<Seq<char>>, sources: Seq<Seq<char>>, x: Seq<char>)
    ensures
        joined_sources(list, sources).contains(x) <==> list.contains(x) || (sources.contains(x) && x
            != "__identity__"@ && x != "legacy"@),
        list.no_duplicates() ==> joined_sources(list, sources).no_duplicates(),
    decreases sources.len(),
{
    if sources.len() > 0 {
        let d = sources.drop_last();
        law_merge_joins_sources(list, d, x);
        let rest = joined_sources(list, d);
        let all = joined_sources(list, sources);
        if rest.contains(x) {
            let i = rest.index_of(x);
            assert(all[i] == x);
        }
        if all.contains(x) && !rest.contains(x) {
            let i = all.index_of(x);
            if i < rest.len() {
                assert(rest[i] == x);
            }
            assert(sources[sources.len() - 1] == x);
        }
        if d.contains(x) {
            let i = d.index_of(x);
            assert(sources[i] == x);
        }
        if sources.contains(x) && !d.contains(x) {
            let i = sources.index_of(x);
            if i < d.len() {
                assert(d[i] == x);
            }
            if is_real_source(x) && !rest.contains(x) {
                assert(all[all.len() - 1] == x);
            }
        }
    }
}

/// Merged facts are as sure as the surest one, and by five more for each source that the one
/// with the most sources lacks, up to 100.
pub proof fn law_more_sources_are_surer(inputs: Seq<Fact>)
    ensures
        ({
            let more = merged_sources(inputs).len() - most_sources(inputs);
            let sure = most_confidence(inputs);
            &&& more <= 0 && sure <= 100 ==> merged_confidence(inputs) == sure
            &&& more > 0 && sure + 5 * more <= 100 ==> merged_confidence(inputs) == sure + 5 * more
            &&& more > 0 && sure + 5 * more > 100 ==> merged_confidence(inputs) == 100
            &&& inputs.len() > 0 ==> exists|k: int|
                0 <= k < inputs.len() && (#[trigger] inputs[k]).confidence == sure
        }),
    decreases inputs.len(),
{
    if inputs.len() > 1 {
        let d = inputs.drop_last();
        law_more_sources_are_surer(d);
        let k = choose|k: int|
            0 <= k < d.len() && (#[trigger] d[k]).confidence == most_confidence(d);
        assert(inputs[k] == d[k]);
        assert(inputs[inputs.len() - 1] == inputs.last());
    } else if inputs.len() == 1 {
        assert(most_confidence(inputs.drop_last()) == 0);
        assert(inputs[0] == inputs.last());
    }
}

pub proof fn lemma_without_all(s: Shelf, keys: Seq<Seq<char>>, k: Seq<char>)
    requires
        s.wf(),
    ensures
        without_all(s, keys).wf(),
        without_all(s, keys).has(k) <==> s.has(k) && !keys.contains(k),
        without_all(s, keys).has(k) ==> without_all(s, keys).get(k) == s.get(k),
    decreases keys.len(),
{
    if keys.len() > 0 {
        let d = keys.drop_last();
        lemma_without_all(s, d, k);
        let t = without_all(s, d);
        lemma_without(t, keys.last());
        if d.contains(k) {
            let i = d.index_of(k);
            assert(keys[i] == k);
        }
        if keys.contains(k) && k != keys.last() {
            let i = keys.index_of(k);
            assert(d[i] == k);
        }
        if k == keys.last() {
            assert(keys[keys.len() - 1] == k);
        }
        if t.has(k) && k != keys.last() {
            assert(t.without(keys.last()).has(k));
        }
    }
}

/// A merge that goes through puts one fact in the place of those that it merges, under the
/// new key, with the new text, and touches nothing else. It takes at least two facts of the
/// same scope and user that are all there, and a key that no other fact has.
pub proof fn law_merge_replaces_its_inputs(
    shelf: Shelf,
    keys: Seq<Seq<char>>,
    new_slug: Seq<char>,
    new_text: Seq<char>,
    now: Timestamp,
    k: Seq<char>,
)
    requires
        shelf.wf(),
        keys.len() >= 2,
        new_slug.len() > 0,
        new_text.len() > 0,
        forall|i: int| 0 <= i < keys.len() ==> shelf.has(#[trigger] keys[i]),
        forall|i: int|
            0 <= i < keys.len() ==> shelf.get(#[trigger] keys[i]).scope == shelf.get(keys[0]).scope,
    ensures
        ({
            let about = shelf.get(keys[0]).scope;
            let key = key_of(about, new_slug);
            let after = merge_answer(shelf, keys, new_slug, new_text, now).shelf;
            if shelf.has(key) && !keys.contains(key) {
                after == shelf
            } else {
                &&& after.has(key) && after.get(key).fact == new_text && after.get(key).scope
                    == about && after.get(key).updated_at == now
                &&& k != key ==> (after.has(k) <==> shelf.has(k) && !keys.contains(k))
                &&& k != key && after.has(k) ==> after.get(k) == shelf.get(k)
            }
        }),
{
    let inputs = Seq::new(keys.len(), |i: int| shelf.get(keys[i]));
    let about = inputs[0].scope;
    let key = key_of(about, new_slug);
    assert forall|i: int| 0 <= i < keys.len() implies (#[trigger] inputs[i]).scope == about by {
        assert(shelf.get(keys[i]).scope == shelf.get(keys[0]).scope);
    }
    lemma_without_all(shelf, keys, k);
    lemma_without_all(shelf, keys, key);
    lemma_put(without_all(shelf, keys), key, merged(inputs, new_text, now));
}

/// A merge that cannot go through changes nothing: of fewer than two facts, of facts that are
/// not there, of different scopes or users, or without a slug or a text.
pub proof fn law_bad_merges_change_nothing(
    shelf: Shelf,
    keys: Seq<Seq<char>>,
    new_slug: Seq<char>,
    new_text: Seq<char>,
    now: Timestamp,
    i: int,
)
    requires
        keys.len() < 2 || new_slug.len() == 0 || new_text.len() == 0 || (0 <= i < keys.len() && (
        !shelf.has(keys[i]) || shelf.get(keys[i]).scope.tag() != shelf.get(keys[0]).scope.tag()
            || shelf.get(keys[i]).scope.subject() != shelf.get(keys[0]).scope.subject())),
    ensures
        merge_answer(shelf, keys, new_slug, new_text, now).shelf == shelf,
{
    let inputs = Seq::new(keys.len(), |j: int| shelf.get(keys[j]));
    if 0 <= i < keys.len() {
        assert(inputs[i] == shelf.get(keys[i]));
        assert(keys[i] == keys[i]);
    }
}

/// An edit changes what it names: the text, of 1 to 500 characters; the confidence, by -50 to
/// 30 and kept from 0 to 100; and the sources, by one. What it does not name stays.
pub proof fn law_edits_change_what_they_name(shelf: Shelf, key: Seq<char>, e: Edit)
    requires
        shelf.wf(),
    ensures
        ({
            let after = edit_answer(shelf, key, e).shelf;
            let bad = (e.fact matches Some(t) && (t.len() == 0 || t.len() > 500)) || (
            e.delta matches Some(d) && (d < -50 || d > 30)) || !shelf.has(key);
            &&& bad ==> after == shelf
            &&& !bad ==> {
                let f = shelf.get(key);
                let g = after.get(key);
                &&& after.has(key)
                &&& e.fact matches Some(t) ==> g.fact == t
                &&& e.fact is None ==> g.fact == f.fact
                &&& e.delta is None ==> g.confidence == f.confidence
                &&& e.delta matches Some(d) ==> (0 <= f.confidence + d <= 100 ==> g.confidence
                    == f.confidence + d) && (f.confidence + d < 0 ==> g.confidence == 0) && (
                f.confidence + d > 100 ==> g.confidence == 100)
                &&& e.drop_source is None ==> g.sources == f.sources
                &&& g.scope == f.scope && g.created_at == f.created_at && g.access_count
                    == f.access_count
            }
        }),
{
    if shelf.has(key) {
        lemma_put(shelf, key, edited(shelf.get(key), e));
    }
}

/// A source that is dropped is gone; all others stay, in their order.
pub proof fn law_sources_are_dropped(list: Seq<Seq<char>>, s: Seq<char>, x: Seq<char>)
    ensures
        !removed_text(list, s).contains(s),
        x != s ==> (removed_text(list, s).contains(x) <==> list.contains(x)),
        !list.contains(s) ==> removed_text(list, s) == list,
    decreases list.len(),
{
    if list.len() > 0 {
        let d = list.drop_last();
        law_sources_are_dropped(d, s, x);
        let rest = removed_text(d, s);
        let all = removed_text(list, s);
        if all.contains(s) {
            let i = all.index_of(s);
            if i < rest.len() {
                assert(rest[i] == s);
            }
        }
        if rest.contains(x) {
            let i = rest.index_of(x);
            assert(all[i] == x);
        }
        if d.contains(x) {
            let i = d.index_of(x);
            assert(list[i] == x);
        }
        if all.contains(x) && !rest.contains(x) {
            let i = all.index_of(x);
            if i < rest.len() {
                assert(rest[i] == x);
            }
            assert(list[list.len() - 1] == x);
        }
        if list.contains(x) && !d.contains(x) {
            let i = list.index_of(x);
            if i < d.len() {
                assert(d[i] == x);
            }
            if x != s {
                assert(all[all.len() - 1] == x);
            }
        }
        if !list.contains(s) {
            assert(!d.contains(s)) by {
                if d.contains(s) {
                    let i = d.index_of(s);
                    assert(list[i] == s);
                }
            }
            assert(list[list.len() - 1] != s);
            assert(d.push(list.last()) =~= list);
        }
    } else {
        assert(removed_text(list, s) =~= list);
    }
}

/// A call of the consolidator drops, merges, edits or reads by what its arguments say, and
/// nothing else changes the memory.
pub proof fn law_consolidator_reworks(shelf: Shelf, call: crate::llm::Call, now: Timestamp)
    requires
        call.parse_error is None,
    ensures
        ({
            let a = consolidator_answer(shelf, call, now);
            let key = json::string_member_or_empty(call.arguments, "key"@);
            &&& call.name == "drop_memory"@ ==> a == dropped(shelf, key)
            &&& call.name == "merge_memories"@ ==> a == merge_answer(
                shelf,
                json::strings_member(call.arguments, "keys"@),
                json::string_member_or_empty(call.arguments, "new_slug"@),
                json::string_member_or_empty(call.arguments, "new_fact"@),
                now,
            )
            &&& call.name == "edit_memory"@ ==> a == edit_answer(
                shelf,
                key,
                (Edit {
                    fact: json::string_member(call.arguments, "fact"@),
                    delta: json::integer_member(call.arguments, "confidence_delta"@),
                    drop_source: json::string_member(call.arguments, "drop_source"@),
                }),
            )
            &&& call.name == "get_memory"@ ==> a.shelf == shelf && a.reply == shown(shelf, key)
            &&& call.name != "drop_memory"@ && call.name != "merge_memories"@ && call.name
                != "edit_memory"@ ==> a.shelf == shelf
        }),
{
    reveal_strlit("drop_memory");
    reveal_strlit("merge_memories");
    reveal_strlit("edit_memory");
    reveal_strlit("get_memory");
    assert("drop_memory"@[0] == 'd' && "merge_memories"@[0] == 'm' && "edit_memory"@[0] == 'e'
        && "get_memory"@[0] == 'g');
}

/// A fact that is read is told with its key, its text and its confidence; a key that is not
/// there is told as such.
pub proof fn law_facts_are_shown(shelf: Shelf, key: Seq<char>)
    ensures
        shelf.has(key) ==> text::has_prefix(
            shown(shelf, key),
            key + ": "@ + shelf.get(key).fact,
        ) && text::has(shown(shelf, key), text::decimal(shelf.get(key).confidence as nat))
            && text::has(shown(shelf, key), shelf.get(key).last_accessed.text()) && text::has(
            shown(shelf, key),
            text::decimal(shelf.get(key).access_count as nat),
        ),
        !shelf.has(key) ==> text::has(shown(shelf, key), key),
        text::has(dropped(shelf, key).reply, key),
{
    broadcast use text::group_parts;

}


/// A confidence moves by just the delta, but never below 0 or above 100.
pub proof fn law_confidence_moves_within_bounds(confidence: u8, delta: int)
    ensures
        0 <= moved_confidence(confidence, delta) <= 100,
        0 <= confidence + delta <= 100 ==> moved_confidence(confidence, delta) == confidence
            + delta,
        confidence + delta < 0 ==> moved_confidence(confidence, delta) == 0,
        confidence + delta > 100 ==> moved_confidence(confidence, delta) == 100,
{
}

/// Each source of a user counts once more; the marks of identities and of old facts do not.
pub proof fn law_real_sources_are_counted(sources: Seq<Seq<char>>, s: Seq<char>)
    ensures
        count_real(Seq::empty()) == 0,
        s != "__identity__"@ && s != "legacy"@ ==> count_real(sources.push(s)) == count_real(
            sources,
        ) + 1,
        s == "__identity__"@ || s == "legacy"@ ==> count_real(sources.push(s)) == count_real(
            sources,
        ),
{
    assert(sources.push(s).drop_last() =~= sources);
}

} // verus!
