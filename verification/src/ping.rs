//! Pings: named groups of chatters that are mentioned together, with a template for the
//! message and a cooldown.
use vstd::prelude::*;
use crate::table;
use crate::table::Table;
use crate::text;
use crate::time;
use crate::time::{Duration, Instant};

verus! {

/// A ping. Its name is the key in the `PingStore`. No member occurs twice.
#[derive(Debug, Clone)]
pub struct Ping {
    pub template: String,
    pub members: Vec<String>,
    /// In seconds.
    pub cooldown: Option<u64>,
    pub created_by: String,
}

/// The contents of a `Ping`.
#[verifier::ext_equal]
pub ghost struct Card {
    pub template: Seq<char>,
    pub members: Seq<Seq<char>>,
    pub cooldown: Option<u64>,
    pub created_by: Seq<char>,
}

/// Some texts, each at its first place only.
pub open spec fn distinct(s: Seq<Seq<char>>) -> Seq<Seq<char>>
    decreases s.len(),
{
    if s.len() == 0 {
        Seq::empty()
    } else {
        let rest = distinct(s.drop_last());
        if rest.contains(s.last()) {
            rest
        } else {
            rest.push(s.last())
        }
    }
}

fn distinct_of(list: &Vec<String>) -> (r: Vec<String>)
    ensures
        text::views(r@) == distinct(text::views(list@)),
        text::views(r@).no_duplicates(),
{
    let mut out: Vec<String> = Vec::new();
    let mut i: usize = 0;
    let ghost all = text::views(list@);
    proof {
        assert(all.take(0) =~= Seq::<Seq<char>>::empty());
        assert(text::views(out@) =~= Seq::<Seq<char>>::empty());
    }
    while i < list.len()
        invariant
            all == text::views(list@),
            i <= list@.len(),
            text::views(out@) == distinct(all.take(i as int)),
            text::views(out@).no_duplicates(),
        decreases list@.len() - i,
    {
        let ghost before = text::views(out@);
        assert(all.take(i + 1).drop_last() =~= all.take(i as int));
        if !text::is_one_of(list[i].as_str(), &out) {
            out.push(list[i].clone());
            assert(text::views(out@) =~= before.push(all[i as int]));
        }
        i = i + 1;
    }
    assert(all.take(i as int) =~= all);
    out
}

proof fn lemma_distinct(s: Seq<Seq<char>>)
    requires
        s.no_duplicates(),
    ensures
        distinct(s) == s,
    decreases s.len(),
{
    if s.len() > 0 {
        let rest = s.drop_last();
        assert(rest.no_duplicates());
        lemma_distinct(rest);
        assert(!rest.contains(s.last())) by {
            if rest.contains(s.last()) {
                let i = rest.index_of(s.last());
                assert(s[i] == s[s.len() - 1]);
            }
        }
        assert(rest.push(s.last()) =~= s);
    }
}

impl Ping {
    pub open spec fn view(&self) -> Card {
        Card {
            template: self.template@,
            members: text::views(self.members@),
            cooldown: self.cooldown,
            created_by: self.created_by@,
        }
    }

    /// A ping with some members; one that is given twice counts once.
    pub fn new(
        template: String,
        members: &Vec<String>,
        cooldown: Option<u64>,
        created_by: String,
    ) -> (r: Ping)
        ensures
            r@ == (Card {
                template: template@,
                members: distinct(text::views(members@)),
                cooldown,
                created_by: created_by@,
            }),
            r@.members.no_duplicates(),
    {
        Ping { template, members: distinct_of(members), cooldown, created_by }
    }
}

/// All pings, by name.
#[derive(Debug, Clone)]
pub struct PingStore {
    pub pings: Table<Ping>,
}

pub open spec fn cards(t: Table<Ping>) -> Map<Seq<char>, Card> {
    t@.map_values(|p: Ping| p@)
}

impl PingStore {
    pub open spec fn wf(&self) -> bool {
        &&& self.pings.wf()
        &&& forall|k: Seq<char>| #[trigger]
            self.pings@.contains_key(k) ==> self.pings@[k]@.members.no_duplicates()
    }

    /// No pings.
    pub fn new() -> (r: PingStore)
        ensures
            r.wf(),
            r.pings.keys() == Seq::<Seq<char>>::empty(),
            cards(r.pings) == Map::<Seq<char>, Card>::empty(),
    {
        let r = PingStore { pings: Table::new() };
        assert(cards(r.pings) =~= Map::<Seq<char>, Card>::empty());
        r
    }

    /// Puts a ping under a name, in place of any other there.
    pub fn put(&mut self, name: String, ping: Ping)
        requires
            old(self).wf(),
            ping@.members.no_duplicates(),
        ensures
            final(self).wf(),
            cards(final(self).pings) == cards(old(self).pings).insert(name@, ping@),
            final(self).pings.keys() == if old(self).pings.keys().contains(name@) {
                old(self).pings.keys()
            } else {
                old(self).pings.keys().push(name@)
            },
    {
        let ghost k = name@;
        let ghost p = ping;
        self.pings.insert(name, ping);
        assert(cards(self.pings) =~= cards(old(self).pings).insert(k, p@));
    }
}

/// What comes of an attempt to trigger a ping.
#[derive(Debug, Clone)]
pub enum TriggerDecision {
    /// Nothing is done: the sender is not a member, there is no such ping, or nobody is
    /// left to mention besides the sender.
    Skip,
    /// The ping is still on cooldown, for this long.
    OnCooldown(Duration),
    /// The ping is sent, as this message. The trigger is already recorded.
    Fire(String),
}

/// The contents of a `TriggerDecision`.
#[verifier::ext_equal]
pub ghost enum Decision {
    Skip,
    OnCooldown(int),
    Fire(Seq<char>),
}

impl TriggerDecision {
    pub open spec fn view(&self) -> Decision {
        match *self {
            TriggerDecision::Skip => Decision::Skip,
            TriggerDecision::OnCooldown(d) => Decision::OnCooldown(d@),
            TriggerDecision::Fire(s) => Decision::Fire(s@),
        }
    }
}

/// The pings, and when each was last triggered.
#[derive(Debug, Clone)]
pub struct PingManager {
    store: PingStore,
    last_triggered: Table<Instant>,
}

/// The contents of a `PingManager`.
#[verifier::ext_equal]
pub ghost struct Board {
    /// The names, in the order in which the pings were made.
    pub names: Seq<Seq<char>>,
    pub pings: Map<Seq<char>, Card>,
    /// When each ping was last triggered, in nanoseconds.
    pub triggered: Map<Seq<char>, int>,
}

/// The contents of pings with their names.
pub open spec fn listed(v: Seq<(String, Ping)>) -> Seq<(Seq<char>, Card)> {
    Seq::new(v.len(), |i: int| (v[i].0@, v[i].1@))
}

/// A ping in which each member counts once.
pub open spec fn tidy(c: Card) -> Card {
    Card { members: distinct(c.members), ..c }
}

/// The board of pings that were read from a file: the later of two with one name, and
/// none of them triggered.
pub open spec fn loaded(list: Seq<(Seq<char>, Card)>) -> Board
    decreases list.len(),
{
    if list.len() == 0 {
        Board { names: Seq::empty(), pings: Map::empty(), triggered: Map::empty() }
    } else {
        let b = loaded(list.drop_last());
        let (name, card) = list.last();
        Board {
            names: if b.names.contains(name) {
                b.names
            } else {
                b.names.push(name)
            },
            pings: b.pings.insert(name, tidy(card)),
            triggered: Map::empty(),
        }
    }
}

// ---------------------------------------------------------------------------
// What the operations do
// ---------------------------------------------------------------------------

pub open spec fn no_such_ping(name: Seq<char>) -> Seq<char> {
    "Ping \""@ + name + "\" gibt es nicht"@
}

/// The characters of a name.
pub open spec fn is_name_char(c: char) -> bool {
    text::is_letter(c) || text::is_digit(c) || c == '-' || c == '_'
}

pub open spec fn all_name_chars(name: Seq<char>) -> bool {
    forall|i: int| 0 <= i < name.len() ==> is_name_char(#[trigger] name[i])
}

pub open spec fn has_control(s: Seq<char>) -> bool {
    exists|i: int| 0 <= i < s.len() && text::is_control(#[trigger] s[i])
}

/// What is wrong with a template. A control character could split a chat message in two.
pub open spec fn template_fault(template: Seq<char>) -> Option<Seq<char>> {
    if has_control(template) {
        Some("Template darf keine Steuerzeichen (z.B. Zeilenumbrüche) enthalten"@)
    } else {
        None
    }
}

/// The mentions of some members: all but the sender.
pub open spec fn mentions(members: Seq<Seq<char>>, sender: Seq<char>) -> Seq<Seq<char>>
    decreases members.len(),
{
    if members.len() == 0 {
        Seq::empty()
    } else {
        let rest = mentions(members.drop_last(), sender);
        if members.last() == sender {
            rest
        } else {
            rest.push("@"@ + members.last())
        }
    }
}

/// The names, among some, of the pings that a user is a member of.
pub open spec fn subscribed(
    names: Seq<Seq<char>>,
    pings: Map<Seq<char>, Card>,
    user: Seq<char>,
) -> Seq<Seq<char>>
    decreases names.len(),
{
    if names.len() == 0 {
        Seq::empty()
    } else {
        let rest = subscribed(names.drop_last(), pings, user);
        if pings[names.last()].members.contains(user) {
            rest.push(names.last())
        } else {
            rest
        }
    }
}

impl Board {
    pub open spec fn wf(self) -> bool {
        &&& self.names.no_duplicates()
        &&& forall|k: Seq<char>| #[trigger]
            self.names.contains(k) <==> self.pings.contains_key(k)
        &&& forall|k: Seq<char>| #[trigger]
            self.pings.contains_key(k) ==> self.pings[k].members.no_duplicates()
    }

    /// The pings with their names, as they are written to a file.
    pub open spec fn entries(self) -> Seq<(Seq<char>, Card)> {
        Seq::new(self.names.len(), |i: int| (self.names[i], self.pings[self.names[i]]))
    }

    /// A ping in place of the one with its name.
    pub open spec fn with(self, name: Seq<char>, card: Card) -> Board {
        Board { pings: self.pings.insert(name, card), ..self }
    }

    pub open spec fn created(
        self,
        name: Seq<char>,
        template: Seq<char>,
        created_by: Seq<char>,
        cooldown: Option<u64>,
    ) -> Result<Board, Seq<char>> {
        if name.len() == 0 {
            Err("Ping-Name darf nicht leer sein"@)
        } else if !all_name_chars(name) {
            Err("Ping-Name darf nur Buchstaben, Zahlen, - und _ enthalten"@)
        } else if template_fault(template) is Some {
            Err(template_fault(template)->0)
        } else if self.pings.contains_key(name) {
            Err("Ping \""@ + name + "\" gibt es schon"@)
        } else {
            Ok(
                Board {
                    names: self.names.push(name),
                    pings: self.pings.insert(
                        name,
                        Card { template, members: Seq::empty(), cooldown, created_by },
                    ),
                    triggered: self.triggered,
                },
            )
        }
    }

    pub open spec fn deleted(self, name: Seq<char>) -> Result<Board, Seq<char>> {
        if self.pings.contains_key(name) {
            Ok(
                Board {
                    names: self.names.remove(self.names.index_of(name)),
                    pings: self.pings.remove(name),
                    triggered: self.triggered.remove(name),
                },
            )
        } else {
            Err(no_such_ping(name))
        }
    }

    pub open spec fn edited(self, name: Seq<char>, template: Seq<char>) -> Result<
        Board,
        Seq<char>,
    > {
        if template_fault(template) is Some {
            Err(template_fault(template)->0)
        } else if self.pings.contains_key(name) {
            Ok(self.with(name, Card { template, ..self.pings[name] }))
        } else {
            Err(no_such_ping(name))
        }
    }

    pub open spec fn member_added(self, name: Seq<char>, user: Seq<char>) -> Result<
        Board,
        Seq<char>,
    > {
        let lower = text::unicode_lower(user);
        if !self.pings.contains_key(name) {
            Err(no_such_ping(name))
        } else if self.pings[name].members.contains(lower) {
            Err(user + " ist schon in \""@ + name + "\""@)
        } else {
            let card = self.pings[name];
            Ok(self.with(name, Card { members: card.members.push(lower), ..card }))
        }
    }

    pub open spec fn member_removed(self, name: Seq<char>, user: Seq<char>) -> Result<
        Board,
        Seq<char>,
    > {
        let lower = text::unicode_lower(user);
        if !self.pings.contains_key(name) {
            Err(no_such_ping(name))
        } else if !self.pings[name].members.contains(lower) {
            Err(user + " ist nicht in \""@ + name + "\""@)
        } else {
            let card = self.pings[name];
            Ok(
                self.with(
                    name,
                    Card { members: card.members.remove(card.members.index_of(lower)), ..card },
                ),
            )
        }
    }

    pub open spec fn member(self, name: Seq<char>, user: Seq<char>) -> bool {
        self.pings.contains_key(name) && self.pings[name].members.contains(user)
    }

    /// The cooldown of a ping, in nanoseconds: its own, or the one for all.
    pub open spec fn cooldown_of(self, name: Seq<char>, default_cooldown: int) -> int {
        match self.pings[name].cooldown {
            Some(secs) => secs * 1_000_000_000,
            None => default_cooldown,
        }
    }

    /// How long a ping is still on cooldown, in nanoseconds.
    pub open spec fn on_cooldown(self, name: Seq<char>, default_cooldown: int, now: int) -> Option<
        int,
    > {
        if !self.pings.contains_key(name) || !self.triggered.contains_key(name) {
            None
        } else {
            let elapsed = time::passed(now, self.triggered[name]);
            if elapsed < self.cooldown_of(name, default_cooldown) {
                Some(self.cooldown_of(name, default_cooldown) - elapsed)
            } else {
                None
            }
        }
    }

    /// The message of a ping. There is none where nobody is left to mention.
    pub open spec fn rendered(self, name: Seq<char>, sender: Seq<char>) -> Option<Seq<char>> {
        if !self.pings.contains_key(name) || mentions(self.pings[name].members, sender).len()
            == 0 {
            None
        } else {
            Some(
                text::substitute(
                    text::substitute(
                        self.pings[name].template,
                        "{mentions}"@,
                        text::join(mentions(self.pings[name].members, sender), " "@),
                    ),
                    "{sender}"@,
                    sender,
                ),
            )
        }
    }

    pub open spec fn recorded(self, name: Seq<char>, now: int) -> Board {
        Board { triggered: self.triggered.insert(name, now), ..self }
    }

    /// What comes of an attempt to trigger a ping.
    pub open spec fn decision(
        self,
        name: Seq<char>,
        sender: Seq<char>,
        default_cooldown: int,
        public: bool,
        now: int,
    ) -> Decision {
        if !public && !self.member(name, sender) {
            Decision::Skip
        } else {
            match self.on_cooldown(name, default_cooldown, now) {
                Some(left) => Decision::OnCooldown(left),
                None => match self.rendered(name, sender) {
                    Some(message) => Decision::Fire(message),
                    None => Decision::Skip,
                },
            }
        }
    }
}

/// Whether an operation did what it should: the new board where it succeeds, and the
/// message and the old board where it fails.
pub open spec fn outcome(
    expected: Result<Board, Seq<char>>,
    r: Result<(), String>,
    before: Board,
    after: Board,
) -> bool {
    match expected {
        Ok(b) => r is Ok && after == b,
        Err(e) => r is Err && r->Err_0@ == e && after == before,
    }
}

// ---------------------------------------------------------------------------
// The manager
// ---------------------------------------------------------------------------

fn missing(name: &str) -> (r: String)
    ensures
        r@ == no_such_ping(name@),
{
    let mut e = "Ping \"".to_owned();
    e.push_str(name);
    e.push_str("\" gibt es nicht");
    e
}

fn validate_template(template: &str) -> (r: Result<(), String>)
    ensures
        crate::schedule::fault_view(r) == template_fault(template@),
{
    let v = text::chars_of(template);
    let mut i: usize = 0;
    while i < v.len()
        invariant
            v@ == template@,
            i <= v@.len(),
            forall|j: int| 0 <= j < i ==> !text::is_control(#[trigger] v@[j]),
        decreases v@.len() - i,
    {
        if text::is_control_char(v[i]) {
            return Err("Template darf keine Steuerzeichen (z.B. Zeilenumbrüche) enthalten".to_owned());
        }
        i = i + 1;
    }
    Ok(())
}

fn is_name(name: &str) -> (r: bool)
    ensures
        r == all_name_chars(name@),
{
    let v = text::chars_of(name);
    let mut i: usize = 0;
    while i < v.len()
        invariant
            v@ == name@,
            i <= v@.len(),
            forall|j: int| 0 <= j < i ==> is_name_char(#[trigger] v@[j]),
        decreases v@.len() - i,
    {
        let c = v[i];
        if !(text::is_ascii_letter(c) || text::is_ascii_digit(c) || c == '-' || c == '_') {
            return false;
        }
        i = i + 1;
    }
    true
}

/// The place of a text in a list.
fn place_of(list: &Vec<String>, s: &str) -> (r: Option<usize>)
    ensures
        match r {
            Some(i) => i < list@.len() && list@[i as int]@ == s@ && text::views(list@).contains(s@),
            None => !text::views(list@).contains(s@),
        },
{
    let mut i: usize = 0;
    while i < list.len()
        invariant
            i <= list@.len(),
            forall|j: int| 0 <= j < i ==> list@[j]@ != s@,
        decreases list@.len() - i,
    {
        if text::same(list[i].as_str(), s) {
            assert(text::views(list@)[i as int] == s@);
            return Some(i);
        }
        i = i + 1;
    }
    None
}

fn mentions_of(members: &Vec<String>, sender: &str) -> (r: Vec<String>)
    ensures
        text::views(r@) == mentions(text::views(members@), sender@),
{
    let ghost all = text::views(members@);
    let mut out: Vec<String> = Vec::new();
    let mut i: usize = 0;
    proof {
        assert(all.take(0) =~= Seq::<Seq<char>>::empty());
        assert(text::views(out@) =~= Seq::<Seq<char>>::empty());
    }
    while i < members.len()
        invariant
            all == text::views(members@),
            i <= members@.len(),
            text::views(out@) == mentions(all.take(i as int), sender@),
        decreases members@.len() - i,
    {
        let ghost before = text::views(out@);
        assert(all.take(i + 1).drop_last() =~= all.take(i as int));
        if !text::same(members[i].as_str(), sender) {
            let mut m = "@".to_owned();
            m.push_str(members[i].as_str());
            let ghost mv = m@;
            out.push(m);
            assert(text::views(out@) =~= before.push(mv));
        }
        i = i + 1;
    }
    assert(all.take(i as int) =~= all);
    out
}

impl PingManager {
    pub closed spec fn wf(&self) -> bool {
        self.store.wf() && self.last_triggered.wf()
    }

    pub closed spec fn view(&self) -> Board {
        Board {
            names: self.store.pings.keys(),
            pings: cards(self.store.pings),
            triggered: self.last_triggered@.map_values(|i: Instant| i@),
        }
    }

    /// The board of a manager in order is in order.
    pub proof fn lemma_board(&self)
        requires
            self.wf(),
        ensures
            self@.wf(),
    {
        assert forall|k: Seq<char>| #[trigger] self@.pings.contains_key(k) implies self@.pings[k].members.no_duplicates() by {
            assert(self.store.pings@.contains_key(k));
        }
    }

    /// A manager of some pings, none of which has been triggered.
    pub fn new(store: PingStore) -> (r: PingManager)
        requires
            store.wf(),
        ensures
            r.wf(),
            r@ == (Board {
                names: store.pings.keys(),
                pings: cards(store.pings),
                triggered: Map::empty(),
            }),
    {
        let r = PingManager { store, last_triggered: Table::new() };
        assert(r@.triggered =~= Map::<Seq<char>, int>::empty());
        r
    }

    /// A manager of the pings that were read from a file, none of which has been
    /// triggered. Of two pings with one name the later counts.
    pub fn load(list: &Vec<(String, Ping)>) -> (r: PingManager)
        ensures
            r.wf(),
            r@ == loaded(listed(list@)),
    {
        let mut store = PingStore::new();
        let ghost all = listed(list@);
        let mut i: usize = 0;
        assert(all.take(0) =~= Seq::<(Seq<char>, Card)>::empty());
        while i < list.len()
            invariant
                i <= list@.len(),
                all == listed(list@),
                store.wf(),
                store.pings.keys() == loaded(all.take(i as int)).names,
                cards(store.pings) == loaded(all.take(i as int)).pings,
            decreases list@.len() - i,
        {
            assert(all.take(i + 1).drop_last() =~= all.take(i as int));
            let p = &list[i].1;
            let ping = Ping::new(
                p.template.clone(),
                &p.members,
                p.cooldown,
                p.created_by.clone(),
            );
            assert(ping@ =~= tidy(all[i as int].1));
            store.put(list[i].0.clone(), ping);
            i = i + 1;
        }
        assert(all.take(i as int) =~= all);
        PingManager::new(store)
    }

    /// The pings with their names, as they are written to a file.
    pub fn entries(&self) -> (r: Vec<(String, Ping)>)
        requires
            self.wf(),
        ensures
            listed(r@) == self@.entries(),
    {
        let t = &self.store.pings;
        let mut out: Vec<(String, Ping)> = Vec::new();
        let mut i: usize = 0;
        while i < t.len()
            invariant
                self.wf(),
                *t == self.store.pings,
                i <= t.keys().len(),
                out@.len() == i,
                forall|j: int|
                    0 <= j < i ==> (#[trigger] out@[j]).0@ == self@.names[j] && out@[j].1@
                        == self@.pings[self@.names[j]],
            decreases t.keys().len() - i,
        {
            let p = t.value_at(i);
            let ghost name = t.keys()[i as int];
            proof {
                table::lemma_index_of(t.keys(), i as int);
                assert(t@.contains_key(name) && t@[name] == *p);
                lemma_distinct(p@.members);
            }
            let ping = Ping::new(
                p.template.clone(),
                &p.members,
                p.cooldown,
                p.created_by.clone(),
            );
            assert(ping@ =~= p@);
            out.push((t.key_at(i).to_owned(), ping));
            i = i + 1;
        }
        assert(listed(out@) =~= self@.entries());
        out
    }

    /// The pings.
    pub fn store(&self) -> (r: &PingStore)
        requires
            self.wf(),
        ensures
            r.wf(),
            r.pings.keys() == self@.names,
            cards(r.pings) == self@.pings,
    {
        &self.store
    }

    /// Makes a new ping, without members. The name is of letters, digits, `-` and `_`,
    /// and not taken.
    pub fn create_ping(
        &mut self,
        name: String,
        template: String,
        created_by: String,
        cooldown: Option<u64>,
    ) -> (r: Result<(), String>)
        requires
            old(self).wf(),
        ensures
            final(self).wf(),
            outcome(
                old(self)@.created(name@, template@, created_by@, cooldown),
                r,
                old(self)@,
                final(self)@,
            ),
    {
        if text::char_count(name.as_str()) == 0 {
            return Err("Ping-Name darf nicht leer sein".to_owned());
        }
        if !is_name(name.as_str()) {
            return Err("Ping-Name darf nur Buchstaben, Zahlen, - und _ enthalten".to_owned());
        }
        if let Err(e) = validate_template(template.as_str()) {
            return Err(e);
        }
        if self.store.pings.contains_key(name.as_str()) {
            let mut e = "Ping \"".to_owned();
            e.push_str(name.as_str());
            e.push_str("\" gibt es schon");
            return Err(e);
        }
        let ping = Ping { template, members: Vec::new(), cooldown, created_by };
        assert(ping@.members =~= Seq::<Seq<char>>::empty());
        self.store.put(name, ping);
        Ok(())
    }

    /// Deletes a ping.
    pub fn delete_ping(&mut self, name: &str) -> (r: Result<(), String>)
        requires
            old(self).wf(),
        ensures
            final(self).wf(),
            outcome(old(self)@.deleted(name@), r, old(self)@, final(self)@),
    {
        let gone = self.store.pings.remove(name);
        if gone.is_none() {
            assert(cards(self.store.pings) =~= cards(old(self).store.pings));
            return Err(missing(name));
        }
        let _last = self.last_triggered.remove(name);
        proof {
            assert(self@.pings =~= old(self)@.pings.remove(name@));
            assert(self@.triggered =~= old(self)@.triggered.remove(name@));
        }
        Ok(())
    }

    /// Replaces the template of a ping.
    pub fn edit_template(&mut self, name: &str, template: String) -> (r: Result<(), String>)
        requires
            old(self).wf(),
        ensures
            final(self).wf(),
            outcome(old(self)@.edited(name@, template@), r, old(self)@, final(self)@),
    {
        if let Err(e) = validate_template(template.as_str()) {
            return Err(e);
        }
        let ping = match self.store.pings.get(name) {
            Some(p) => Ping {
                template,
                members: text::copy_list(&p.members),
                cooldown: p.cooldown,
                created_by: p.created_by.clone(),
            },
            None => {
                return Err(missing(name));
            },
        };
        self.store.put(name.to_owned(), ping);
        Ok(())
    }

    /// Adds a member, in lower case.
    pub fn add_member(&mut self, ping_name: &str, username: &str) -> (r: Result<(), String>)
        requires
            old(self).wf(),
        ensures
            final(self).wf(),
            outcome(
                old(self)@.member_added(ping_name@, username@),
                r,
                old(self)@,
                final(self)@,
            ),
            text::lower_known(username@),
    {
        let lower = text::to_lowercase(username);
        let ping = match self.store.pings.get(ping_name) {
            Some(p) => {
                if text::is_one_of(lower.as_str(), &p.members) {
                    let mut e = username.to_owned();
                    e.push_str(" ist schon in \"");
                    e.push_str(ping_name);
                    e.push_str("\"");
                    return Err(e);
                }
                let mut members = text::copy_list(&p.members);
                let ghost before = text::views(members@);
                members.push(lower);
                assert(text::views(members@) =~= before.push(text::unicode_lower(username@)));
                Ping {
                    template: p.template.clone(),
                    members,
                    cooldown: p.cooldown,
                    created_by: p.created_by.clone(),
                }
            },
            None => {
                return Err(missing(ping_name));
            },
        };
        self.store.put(ping_name.to_owned(), ping);
        Ok(())
    }

    /// Removes a member.
    pub fn remove_member(&mut self, ping_name: &str, username: &str) -> (r: Result<(), String>)
        requires
            old(self).wf(),
        ensures
            final(self).wf(),
            outcome(
                old(self)@.member_removed(ping_name@, username@),
                r,
                old(self)@,
                final(self)@,
            ),
            text::lower_known(username@),
    {
        let lower = text::to_lowercase(username);
        let ping = match self.store.pings.get(ping_name) {
            Some(p) => {
                let at: usize = match place_of(&p.members, lower.as_str()) {
                    Some(i) => i,
                    None => {
                        let mut e = username.to_owned();
                        e.push_str(" ist nicht in \"");
                        e.push_str(ping_name);
                        e.push_str("\"");
                        return Err(e);
                    },
                };
                let mut members = text::copy_list(&p.members);
                let ghost before = text::views(members@);
                proof {
                    table::lemma_index_of(before, at as int);
                }
                let _gone = members.remove(at);
                proof {
                    assert(text::views(members@) =~= before.remove(at as int));
                    lemma_remove_keeps_distinct(before, at as int);
                }
                Ping {
                    template: p.template.clone(),
                    members,
                    cooldown: p.cooldown,
                    created_by: p.created_by.clone(),
                }
            },
            None => {
                return Err(missing(ping_name));
            },
        };
        self.store.put(ping_name.to_owned(), ping);
        Ok(())
    }

    /// Whether any ping has a name, without regard to the case of ASCII letters.
    pub fn ping_exists_ignore_case(&self, name: &str) -> (r: bool)
        requires
            self.wf(),
        ensures
            r == exists|i: int|
                0 <= i < self@.names.len() && text::same_ignore_case(
                    #[trigger] self@.names[i],
                    name@,
                ),
    {
        let mut i: usize = 0;
        while i < self.store.pings.len()
            invariant
                self.wf(),
                i <= self@.names.len(),
                forall|j: int|
                    0 <= j < i ==> !text::same_ignore_case(#[trigger] self@.names[j], name@),
            decreases self@.names.len() - i,
        {
            if text::eq_ignore_ascii_case(self.store.pings.key_at(i), name) {
                assert(text::same_ignore_case(self@.names[i as int], name@));
                return true;
            }
            i = i + 1;
        }
        false
    }

    /// Whether a user is a member of a ping.
    pub fn is_member(&self, ping_name: &str, username: &str) -> (r: bool)
        requires
            self.wf(),
        ensures
            r == self@.member(ping_name@, username@),
    {
        match self.store.pings.get(ping_name) {
            Some(p) => text::is_one_of(username, &p.members),
            None => false,
        }
    }

    /// The names of the pings that a user is a member of.
    pub fn list_pings_for_user(&self, username: &str) -> (r: Vec<String>)
        requires
            self.wf(),
        ensures
            text::views(r@) == subscribed(self@.names, self@.pings, username@),
    {
        let ghost names = self@.names;
        let ghost pings = self@.pings;
        let mut out: Vec<String> = Vec::new();
        let mut i: usize = 0;
        proof {
            assert(names.take(0) =~= Seq::<Seq<char>>::empty());
            assert(text::views(out@) =~= Seq::<Seq<char>>::empty());
        }
        while i < self.store.pings.len()
            invariant
                self.wf(),
                names == self@.names,
                pings == self@.pings,
                i <= names.len(),
                text::views(out@) == subscribed(names.take(i as int), pings, username@),
            decreases names.len() - i,
        {
            let ghost before = text::views(out@);
            proof {
                assert(names.take(i + 1).drop_last() =~= names.take(i as int));
                table::lemma_index_of(names, i as int);
                assert(self.store.pings@.contains_key(names[i as int]));
            }
            let p = self.store.pings.value_at(i);
            if text::is_one_of(username, &p.members) {
                out.push(self.store.pings.key_at(i).to_owned());
                assert(text::views(out@) =~= before.push(names[i as int]));
            }
            i = i + 1;
        }
        assert(names.take(i as int) =~= names);
        out
    }

    /// How long a ping is still on cooldown. `None` where it can be triggered, or does not
    /// exist.
    pub fn remaining_cooldown(
        &self,
        ping_name: &str,
        default_cooldown: Duration,
        now: Instant,
    ) -> (r: Option<Duration>)
        requires
            self.wf(),
        ensures
            match r {
                Some(d) => self@.on_cooldown(ping_name@, default_cooldown@, now@) == Some(d@),
                None => self@.on_cooldown(ping_name@, default_cooldown@, now@) is None,
            },
    {
        let cooldown = match self.store.pings.get(ping_name) {
            Some(p) => match p.cooldown {
                Some(secs) => Duration::from_secs(secs),
                None => default_cooldown,
            },
            None => {
                return None;
            },
        };
        match self.last_triggered.get(ping_name) {
            Some(last) => {
                let elapsed = now.since(last);
                if elapsed.nanos < cooldown.nanos {
                    Some(Duration { nanos: cooldown.nanos - elapsed.nanos })
                } else {
                    None
                }
            },
            None => None,
        }
    }

    /// Records that a ping was triggered.
    pub fn record_trigger(&mut self, ping_name: &str, now: Instant)
        requires
            old(self).wf(),
        ensures
            final(self).wf(),
            final(self)@ == old(self)@.recorded(ping_name@, now@),
    {
        self.last_triggered.insert(ping_name.to_owned(), now);
        assert(self@.triggered =~= old(self)@.triggered.insert(ping_name@, now@));
    }

    /// Checks membership and cooldown, renders the message, and records the trigger, all
    /// in one step. With `public`, anyone may trigger.
    pub fn try_record_trigger(
        &mut self,
        ping_name: &str,
        sender: &str,
        default_cooldown: Duration,
        public: bool,
        now: Instant,
    ) -> (r: TriggerDecision)
        requires
            old(self).wf(),
        ensures
            final(self).wf(),
            r@ == old(self)@.decision(ping_name@, sender@, default_cooldown@, public, now@),
            final(self)@ == if r@ is Fire {
                old(self)@.recorded(ping_name@, now@)
            } else {
                old(self)@
            },
    {
        if !public && !self.is_member(ping_name, sender) {
            return TriggerDecision::Skip;
        }
        if let Some(left) = self.remaining_cooldown(ping_name, default_cooldown, now) {
            return TriggerDecision::OnCooldown(left);
        }
        match self.render_template(ping_name, sender) {
            None => TriggerDecision::Skip,
            Some(message) => {
                self.record_trigger(ping_name, now);
                TriggerDecision::Fire(message)
            },
        }
    }

    /// The message of a ping, with its placeholders filled in. `None` where the ping does
    /// not exist, or nobody is left to mention besides the sender.
    pub fn render_template(&self, ping_name: &str, sender: &str) -> (r: Option<String>)
        requires
            self.wf(),
        ensures
            text::opt_view(r) == self@.rendered(ping_name@, sender@),
    {
        match self.store.pings.get(ping_name) {
            None => None,
            Some(p) => {
                let list = mentions_of(&p.members, sender);
                assert(text::views(list@).len() == list@.len());
                if list.len() == 0 {
                    return None;
                }
                proof {
                    reveal_strlit("{mentions}");
                    reveal_strlit("{sender}");
                }
                let all = text::joined(&list, " ");
                let s = text::replace(p.template.as_str(), "{mentions}", all.as_str());
                Some(text::replace(s.as_str(), "{sender}", sender))
            },
        }
    }
}

// ---------------------------------------------------------------------------
// Laws
// ---------------------------------------------------------------------------

proof fn lemma_remove_keeps_distinct(s: Seq<Seq<char>>, i: int)
    requires
        s.no_duplicates(),
        0 <= i < s.len(),
    ensures
        s.remove(i).no_duplicates(),
        !s.remove(i).contains(s[i]),
        forall|x: Seq<char>| x != s[i] ==> (#[trigger] s.remove(i).contains(x) <==> s.contains(x)),
{
    let t = s.remove(i);
    assert forall|a: int, b: int| 0 <= a < t.len() && 0 <= b < t.len() && a != b implies t[a]
        != t[b] by {
        let p = if a < i { a } else { a + 1 };
        let q = if b < i { b } else { b + 1 };
        assert(t[a] == s[p] && t[b] == s[q]);
    }
    if t.contains(s[i]) {
        let a = t.index_of(s[i]);
        let p = if a < i { a } else { a + 1 };
        assert(t[a] == s[p]);
    }
    assert forall|x: Seq<char>| x != s[i] implies (#[trigger] t.contains(x) <==> s.contains(x)) by {
        if t.contains(x) {
            let a = t.index_of(x);
            let p = if a < i { a } else { a + 1 };
            assert(s[p] == x);
        }
        if s.contains(x) {
            let p = s.index_of(x);
            let a = if p < i { p } else { p - 1 };
            assert(t[a] == x);
        }
    }
}

proof fn lemma_push_then_remove(s: Seq<Seq<char>>, x: Seq<char>)
    requires
        s.no_duplicates(),
        !s.contains(x),
    ensures
        s.push(x).contains(x),
        s.push(x).remove(s.push(x).index_of(x)) == s,
{
    let t = s.push(x);
    assert(t[s.len() as int] == x);
    let i = t.index_of(x);
    assert(t[i] == x);
    if i < s.len() {
        assert(s[i] == x);
    }
    assert(t.remove(i) =~= s);
}

/// Deleting a ping that was just made undoes it, where it had not been triggered before.
pub proof fn law_create_then_delete(
    b: Board,
    name: Seq<char>,
    template: Seq<char>,
    created_by: Seq<char>,
    cooldown: Option<u64>,
)
    requires
        b.wf(),
        !b.triggered.contains_key(name),
        b.created(name, template, created_by, cooldown) is Ok,
    ensures
        b.created(name, template, created_by, cooldown)->Ok_0.deleted(name) == Ok::<
            Board,
            Seq<char>,
        >(b),
{
    let c = b.created(name, template, created_by, cooldown)->Ok_0;
    assert(!b.names.contains(name));
    lemma_push_then_remove(b.names, name);
    let d = c.deleted(name)->Ok_0;
    assert(d.pings =~= b.pings);
    assert(d.triggered =~= b.triggered);
    assert(d =~= b);
}

/// A name that is taken cannot be made again.
pub proof fn law_name_is_taken_once(
    b: Board,
    name: Seq<char>,
    template: Seq<char>,
    created_by: Seq<char>,
    cooldown: Option<u64>,
)
    requires
        b.created(name, template, created_by, cooldown) is Ok,
    ensures
        b.created(name, template, created_by, cooldown)->Ok_0.created(
            name,
            template,
            created_by,
            cooldown,
        ) == Err::<Board, Seq<char>>("Ping \""@ + name + "\" gibt es schon"@),
{
}

/// Leaving a ping that one has just joined undoes it.
pub proof fn law_join_then_leave(b: Board, name: Seq<char>, user: Seq<char>)
    requires
        b.wf(),
        b.member_added(name, user) is Ok,
    ensures
        b.member_added(name, user)->Ok_0.member(name, text::unicode_lower(user)),
        b.member_added(name, user)->Ok_0.member_added(name, user) is Err,
        b.member_added(name, user)->Ok_0.member_removed(name, user) == Ok::<Board, Seq<char>>(b),
{
    let lower = text::unicode_lower(user);
    lemma_push_then_remove(b.pings[name].members, lower);
    let c = b.member_added(name, user)->Ok_0;
    let d = c.member_removed(name, user)->Ok_0;
    assert(d.pings[name] =~= b.pings[name]);
    assert(d.pings =~= b.pings);
    assert(d =~= b);
}

/// After leaving one is no member any more, and the others still are.
pub proof fn law_leave_removes_only_one(b: Board, name: Seq<char>, user: Seq<char>)
    requires
        b.wf(),
        b.member_removed(name, user) is Ok,
    ensures
        !b.member_removed(name, user)->Ok_0.member(name, text::unicode_lower(user)),
        forall|other: Seq<char>|
            other != text::unicode_lower(user) ==> (#[trigger] b.member_removed(
                name,
                user,
            )->Ok_0.member(name, other) <==> b.member(name, other)),
{
    let members = b.pings[name].members;
    let i = members.index_of(text::unicode_lower(user));
    assert(members[i] == text::unicode_lower(user));
    lemma_remove_keeps_distinct(members, i);
}

/// Editing a template keeps the members, the cooldown and the author of the ping, and all
/// other pings.
pub proof fn law_edit_keeps_the_rest(b: Board, name: Seq<char>, template: Seq<char>)
    requires
        b.edited(name, template) is Ok,
    ensures
        ({
            let c = b.edited(name, template)->Ok_0;
            &&& c.pings[name] == (Card { template, ..b.pings[name] })
            &&& c.names == b.names
            &&& c.triggered == b.triggered
            &&& forall|k: Seq<char>|
                k != name ==> (#[trigger] c.pings.contains_key(k) <==> b.pings.contains_key(k))
                    && c.pings[k] == b.pings[k]
        }),
{
}

/// No template that is made or edited holds a control character.
pub proof fn law_templates_stay_printable(
    b: Board,
    name: Seq<char>,
    template: Seq<char>,
    created_by: Seq<char>,
    cooldown: Option<u64>,
)
    requires
        forall|k: Seq<char>| #[trigger]
            b.pings.contains_key(k) ==> !has_control(b.pings[k].template),
    ensures
        b.created(name, template, created_by, cooldown) matches Ok(c) ==> forall|k: Seq<char>|
         #[trigger] c.pings.contains_key(k) ==> !has_control(c.pings[k].template),
        b.edited(name, template) matches Ok(c) ==> forall|k: Seq<char>| #[trigger]
            c.pings.contains_key(k) ==> !has_control(c.pings[k].template),
{
}

/// A ping that has fired is on cooldown until its cooldown is over, and not after.
pub proof fn law_fired_is_on_cooldown(
    b: Board,
    name: Seq<char>,
    sender: Seq<char>,
    default_cooldown: int,
    public: bool,
    now: int,
    later: int,
)
    requires
        b.decision(name, sender, default_cooldown, public, now) is Fire,
        now <= later,
    ensures
        ({
            let after = b.recorded(name, now);
            let left = b.cooldown_of(name, default_cooldown) - (later - now);
            after.decision(name, sender, default_cooldown, public, later) == if left > 0 {
                Decision::OnCooldown(left)
            } else {
                b.decision(name, sender, default_cooldown, public, now)
            }
        }),
{
    let after = b.recorded(name, now);
    assert(b.rendered(name, sender) == after.rendered(name, sender));
}

/// Unless pings are public, only members trigger them.
pub proof fn law_only_members_trigger(
    b: Board,
    name: Seq<char>,
    sender: Seq<char>,
    default_cooldown: int,
    now: int,
)
    ensures
        b.decision(name, sender, default_cooldown, false, now) is Fire ==> b.member(name, sender),
{
}

/// Only others are mentioned: every mention is of a member other than the sender, and
/// every such member is mentioned.
pub proof fn law_sender_is_not_mentioned(members: Seq<Seq<char>>, sender: Seq<char>)
    ensures
        forall|i: int|
            0 <= i < mentions(members, sender).len() ==> exists|j: int|
                0 <= j < members.len() && #[trigger] members[j] != sender && #[trigger] mentions(
                    members,
                    sender,
                )[i] == "@"@ + members[j],
        forall|j: int|
            0 <= j < members.len() && #[trigger] members[j] != sender ==> mentions(
                members,
                sender,
            ).contains("@"@ + members[j]),
    decreases members.len(),
{
    if members.len() > 0 {
        let shorter = members.drop_last();
        law_sender_is_not_mentioned(shorter, sender);
        let rest = mentions(shorter, sender);
        let all = mentions(members, sender);
        assert forall|i: int| 0 <= i < all.len() implies exists|j: int|
            0 <= j < members.len() && #[trigger] members[j] != sender && #[trigger] all[i] == "@"@
                + members[j] by {
            if i < rest.len() {
                let j = choose|j: int|
                    0 <= j < shorter.len() && #[trigger] shorter[j] != sender && rest[i] == "@"@
                        + shorter[j];
                assert(members[j] != sender && all[i] == "@"@ + members[j]);
            } else {
                assert(members[members.len() - 1] != sender);
            }
        }
        assert forall|j: int| 0 <= j < members.len() && #[trigger] members[j]
            != sender implies all.contains("@"@ + members[j]) by {
            if j < shorter.len() {
                assert(shorter[j] != sender);
                let i = rest.index_of("@"@ + members[j]);
                assert(all[i] == "@"@ + members[j]);
            } else {
                assert(all[rest.len() as int] == "@"@ + members[j]);
            }
        }
    }
}

proof fn lemma_loaded(list: Seq<(Seq<char>, Card)>, k: Seq<char>)
    ensures
        ({
            let m = loaded(list).pings;
            &&& m.contains_key(k) <==> exists|i: int|
                0 <= i < list.len() && (#[trigger] list[i]).0 == k
            &&& m.contains_key(k) ==> exists|i: int|
                0 <= i < list.len() && (#[trigger] list[i]).0 == k && m[k] == tidy(list[i].1)
        }),
    decreases list.len(),
{
    if list.len() > 0 {
        let rest = list.drop_last();
        let last = list.len() - 1;
        lemma_loaded(rest, k);
        let m = loaded(list).pings;
        let before = loaded(rest).pings;
        if list[last].0 == k {
            assert(m[k] == tidy(list[last].1));
        } else {
            if before.contains_key(k) {
                let i = choose|i: int|
                    0 <= i < rest.len() && (#[trigger] rest[i]).0 == k && before[k] == tidy(
                        rest[i].1,
                    );
                assert(list[i].0 == k && m[k] == tidy(list[i].1));
            }
            if exists|i: int| 0 <= i < list.len() && (#[trigger] list[i]).0 == k {
                let i = choose|i: int| 0 <= i < list.len() && (#[trigger] list[i]).0 == k;
                assert(rest[i].0 == k);
            }
        }
    }
}

/// Pings that are written and read again are the same, in whatever order a file holds
/// them, and none of them is on cooldown then.
pub proof fn law_reload_keeps_pings(
    b: Board,
    list: Seq<(Seq<char>, Card)>,
    name: Seq<char>,
    default_cooldown: int,
    now: int,
)
    requires
        b.wf(),
        forall|e: (Seq<char>, Card)| #[trigger] list.contains(e) <==> b.entries().contains(e),
    ensures
        loaded(list).pings == b.pings,
        loaded(list).triggered == Map::<Seq<char>, int>::empty(),
        loaded(list).on_cooldown(name, default_cooldown, now) is None,
{
    let m = loaded(list).pings;
    let es = b.entries();
    assert forall|k: Seq<char>| #[trigger] m.contains_key(k) <==> b.pings.contains_key(k) by {
        lemma_loaded(list, k);
        if m.contains_key(k) {
            let i = choose|i: int| 0 <= i < list.len() && (#[trigger] list[i]).0 == k;
            assert(list.contains(list[i]));
            let j = es.index_of(list[i]);
            assert(b.names[j] == k);
            assert(b.names.contains(k));
        }
        if b.pings.contains_key(k) {
            assert(b.names.contains(k));
            let j = b.names.index_of(k);
            assert(es[j].0 == k);
            assert(es.contains(es[j]));
            assert(list.contains(es[j]));
            let i = list.index_of(es[j]);
            assert(list[i].0 == k);
        }
    }
    assert forall|k: Seq<char>| #[trigger] m.contains_key(k) implies m[k] == b.pings[k] by {
        lemma_loaded(list, k);
        let i = choose|i: int|
            0 <= i < list.len() && (#[trigger] list[i]).0 == k && m[k] == tidy(list[i].1);
        assert(list.contains(list[i]));
        let j = es.index_of(list[i]);
        assert(es[j] == list[i]);
        lemma_distinct(b.pings[k].members);
        assert(tidy(b.pings[k]) =~= b.pings[k]);
    }
    assert(m =~= b.pings);
    assert(loaded(list).triggered =~= Map::<Seq<char>, int>::empty());
}


// ---------------------------------------------------------------------------
// Pings in the chat
// ---------------------------------------------------------------------------

/// A ping can be created under a name of letters, digits, `-` and `_` that is not taken, with
/// a template without control characters. It has no members, the template and the cooldown
/// that were given, and stands behind the others, which stay as they are.
pub proof fn law_pings_are_created(
    b: Board,
    name: Seq<char>,
    template: Seq<char>,
    created_by: Seq<char>,
    cooldown: Option<u64>,
)
    ensures
        b.created(name, template, created_by, cooldown) is Ok <==> {
            &&& name.len() > 0
            &&& forall|i: int|
                0 <= i < name.len() ==> ('a' <= #[trigger] name[i] <= 'z' || 'A' <= name[i] <= 'Z'
                    || '0' <= name[i] <= '9' || name[i] == '-' || name[i] == '_')
            &&& forall|i: int| 0 <= i < template.len() ==> !text::is_control(#[trigger] template[i])
            &&& !b.pings.contains_key(name)
        },
        b.created(name, template, created_by, cooldown) matches Ok(c) ==> {
            &&& c.pings.contains_key(name)
            &&& c.pings[name].template == template && c.pings[name].created_by == created_by
                && c.pings[name].cooldown == cooldown && c.pings[name].members.len() == 0
            &&& c.names == b.names.push(name)
            &&& c.triggered == b.triggered
            &&& forall|k: Seq<char>| k != name ==> (#[trigger] c.pings.contains_key(k)
                == b.pings.contains_key(k)) && (b.pings.contains_key(k) ==> c.pings[k]
                == b.pings[k])
        },
        b.pings.contains_key(name) && b.created(
            name,
            template,
            created_by,
            cooldown,
        ) is Err && name.len() > 0 && all_name_chars(name) && !has_control(template)
            ==> text::has(b.created(name, template, created_by, cooldown)->Err_0, name),
{
    broadcast use text::group_parts;

    if all_name_chars(name) {
        assert forall|i: int| 0 <= i < name.len() implies ('a' <= #[trigger] name[i] <= 'z' || 'A'
            <= name[i] <= 'Z' || '0' <= name[i] <= '9' || name[i] == '-' || name[i] == '_') by {
            assert(is_name_char(name[i]));
        }
    }
    if forall|i: int|
        0 <= i < name.len() ==> ('a' <= #[trigger] name[i] <= 'z' || 'A' <= name[i] <= 'Z' || '0'
            <= name[i] <= '9' || name[i] == '-' || name[i] == '_') {
        assert(all_name_chars(name));
    }
}

/// A ping that is deleted is gone, and so is its cooldown; an edited one has the new
/// template. Neither touches another ping, and a ping that is not there can have neither.
pub proof fn law_pings_are_changed_by_name(
    b: Board,
    name: Seq<char>,
    template: Seq<char>,
    other: Seq<char>,
)
    requires
        other != name,
    ensures
        b.deleted(name) is Ok <==> b.pings.contains_key(name),
        b.deleted(name) matches Ok(c) ==> !c.pings.contains_key(name) && !c.triggered.contains_key(
            name,
        ) && c.pings.contains_key(other) == b.pings.contains_key(other) && (
        b.pings.contains_key(other) ==> c.pings[other] == b.pings[other]),
        b.edited(name, template) is Ok <==> b.pings.contains_key(name) && forall|i: int|
            0 <= i < template.len() ==> !text::is_control(#[trigger] template[i]),
        b.edited(name, template) matches Ok(c) ==> c.pings[name].template == template
            && c.pings[name].members == b.pings[name].members && c.pings[name].cooldown
            == b.pings[name].cooldown && c.pings.contains_key(other) == b.pings.contains_key(other)
            && (b.pings.contains_key(other) ==> c.pings[other] == b.pings[other]),
        !b.pings.contains_key(name) ==> text::has(b.deleted(name)->Err_0, name),
{
    broadcast use text::group_parts;

}

/// A user can join a ping that is there and that they are not in, under the lower case of
/// their name, and leave one that they are in; everyone else stays in it.
pub proof fn law_members_come_and_go(b: Board, name: Seq<char>, user: Seq<char>, other: Seq<char>)
    requires
        b.wf(),
        other != text::unicode_lower(user),
    ensures
        b.member_added(name, user) is Ok <==> b.pings.contains_key(name) && !b.member(
            name,
            text::unicode_lower(user),
        ),
        b.member_added(name, user) matches Ok(c) ==> c.member(name, text::unicode_lower(user))
            && c.member(name, other) == b.member(name, other) && c.pings[name].template
            == b.pings[name].template && c.pings[name].cooldown == b.pings[name].cooldown
            && c.names == b.names,
        b.member_removed(name, user) is Ok <==> b.member(name, text::unicode_lower(user)),
        b.member_removed(name, user) matches Ok(c) ==> !c.member(name, text::unicode_lower(user))
            && c.member(name, other) == b.member(name, other) && c.pings[name].template
            == b.pings[name].template && c.names == b.names,
{
    let lower = text::unicode_lower(user);
    if b.pings.contains_key(name) {
        let m = b.pings[name].members;
        assert(b.names.contains(name));
        assert(m.no_duplicates());
        let p = m.push(lower);
        assert(p[m.len() as int] == lower);
        if m.contains(other) {
            let i = m.index_of(other);
            assert(p[i] == other);
        }
        if p.contains(other) {
            let i = p.index_of(other);
            assert(m[i] == other);
        }
        if m.contains(lower) {
            let k = m.index_of(lower);
            let r = m.remove(k);
            if r.contains(lower) {
                let i = r.index_of(lower);
                if i < k {
                    assert(m[i] == lower);
                } else {
                    assert(m[i + 1] == lower);
                }
            }
            if m.contains(other) {
                let i = m.index_of(other);
                if i < k {
                    assert(r[i] == other);
                } else {
                    assert(r[i - 1] == other);
                }
            }
            if r.contains(other) {
                let i = r.index_of(other);
                if i < k {
                    assert(m[i] == other);
                } else {
                    assert(m[i + 1] == other);
                }
            }
        }
    }
}

/// The pings that a user is told of are just those that they are in, in their order.
pub proof fn law_own_pings_are_listed(
    names: Seq<Seq<char>>,
    pings: Map<Seq<char>, Card>,
    user: Seq<char>,
    name: Seq<char>,
)
    ensures
        subscribed(names, pings, user).contains(name) <==> names.contains(name)
            && pings[name].members.contains(user),
        subscribed(names.push(name), pings, user) == if pings[name].members.contains(user) {
            subscribed(names, pings, user).push(name)
        } else {
            subscribed(names, pings, user)
        },
    decreases names.len(),
{
    assert(names.push(name).drop_last() =~= names);
    if names.len() > 0 {
        let rest = names.drop_last();
        law_own_pings_are_listed(rest, pings, user, name);
        let a = subscribed(rest, pings, user);
        let b = subscribed(names, pings, user);
        if a.contains(name) {
            let i = a.index_of(name);
            assert(b[i] == name);
        }
        if names.contains(name) && pings[name].members.contains(user) && !rest.contains(name) {
            let i = names.index_of(name);
            if i < rest.len() {
                assert(rest[i] == name);
            }
            assert(b[b.len() - 1] == name);
        }
        if rest.contains(name) {
            let i = rest.index_of(name);
            assert(names[i] == name);
        }
        if b.contains(name) && !a.contains(name) {
            let i = b.index_of(name);
            if i < a.len() {
                assert(a[i] == name);
            }
            assert(names[names.len() - 1] == name);
        }
    }
}

/// A ping fires just where it is there, the sender may trigger it, it is not on cooldown, and
/// anyone but the sender is in it. A ping has its own cooldown in seconds, or the general
/// one.
pub proof fn law_pings_fire(
    b: Board,
    name: Seq<char>,
    sender: Seq<char>,
    default_cooldown: int,
    public: bool,
    now: int,
)
    ensures
        b.decision(name, sender, default_cooldown, public, now) is Fire <==> {
            &&& b.pings.contains_key(name)
            &&& public || b.pings[name].members.contains(sender)
            &&& b.triggered.contains_key(name) ==> {
                let wait = match b.pings[name].cooldown {
                    Some(secs) => 1_000_000_000 * secs,
                    None => default_cooldown,
                };
                let elapsed = if now < b.triggered[name] {
                    0
                } else {
                    now - b.triggered[name]
                };
                elapsed >= wait
            }
            &&& exists|j: int|
                0 <= j < b.pings[name].members.len() && #[trigger] b.pings[name].members[j]
                    != sender
        },
        b.decision(name, sender, default_cooldown, public, now) matches Decision::OnCooldown(left)
            ==> left > 0 && b.triggered.contains_key(name),
{
    if b.pings.contains_key(name) {
        let m = b.pings[name].members;
        law_sender_is_not_mentioned(m, sender);
        let all = mentions(m, sender);
        if all.len() > 0 {
            assert(all[0] == all[0]);
            let j = choose|j: int| 0 <= j < m.len() && #[trigger] m[j] != sender && all[0] == "@"@ + m[j];
            assert(m[j] != sender);
        }
        if exists|j: int| 0 <= j < m.len() && #[trigger] m[j] != sender {
            let j = choose|j: int| 0 <= j < m.len() && #[trigger] m[j] != sender;
            assert(all.contains("@"@ + m[j]));
        }
    }
}

/// The message of a ping mentions every member but the sender, where its template has a
/// place for that and no place for the sender; with a place for the sender it holds their
/// name.
pub proof fn law_pings_mention_members(b: Board, name: Seq<char>, sender: Seq<char>, j: int)
    requires
        b.rendered(name, sender) is Some,
        0 <= j < b.pings[name].members.len(),
        b.pings[name].members[j] != sender,
    ensures
        ({
            let all = text::join(mentions(b.pings[name].members, sender), " "@);
            let filled = text::substitute(b.pings[name].template, "{mentions}"@, all);
            &&& text::has(b.pings[name].template, "{mentions}"@) && !text::has(filled, "{sender}"@)
                ==> text::has(b.rendered(name, sender)->0, "@"@ + b.pings[name].members[j])
            &&& text::has(filled, "{sender}"@) ==> text::has(b.rendered(name, sender)->0, sender)
            &&& !text::has(b.pings[name].template, "{mentions}"@) && !text::has(
                b.pings[name].template,
                "{sender}"@,
            ) ==> b.rendered(name, sender)->0 == b.pings[name].template
        }),
{
    reveal_strlit("{mentions}");
    reveal_strlit("{sender}");
    let m = b.pings[name].members;
    let list = mentions(m, sender);
    let all = text::join(list, " "@);
    let template = b.pings[name].template;
    let filled = text::substitute(template, "{mentions}"@, all);
    law_sender_is_not_mentioned(m, sender);
    let i = list.index_of("@"@ + m[j]);
    text::law_joined_holds_each(list, " "@, i);
    if text::has(template, "{mentions}"@) {
        text::law_replaced_is_held(template, "{mentions}"@, all);
        text::law_part_of_part(filled, all, "@"@ + m[j]);
    } else {
        text::law_nothing_to_replace(template, "{mentions}"@, all);
    }
    if text::has(filled, "{sender}"@) {
        text::law_replaced_is_held(filled, "{sender}"@, sender);
    } else {
        text::law_nothing_to_replace(filled, "{sender}"@, sender);
    }
}


/// An operation either succeeds with the board that it leads to, or fails with its message
/// and leaves the board as it was.
pub proof fn law_failures_change_nothing(
    expected: Result<Board, Seq<char>>,
    r: Result<(), String>,
    before: Board,
    after: Board,
)
    requires
        outcome(expected, r, before, after),
    ensures
        r is Err ==> after == before,
        r is Ok <==> expected is Ok,
        expected matches Ok(b) ==> after == b,
        expected matches Err(e) ==> (r matches Err(s) && s@ == e),
{
}


/// A ping that is read is known by its name, which stands behind those that were read before
/// unless it is one of them, and none of the pings that are read has been triggered.
pub proof fn law_read_pings_are_known(list: Seq<(Seq<char>, Card)>, name: Seq<char>, card: Card)
    ensures
        loaded(list.push((name, card))).names.contains(name),
        loaded(list).names.contains(name) ==> loaded(list.push((name, card))).names == loaded(
            list,
        ).names,
        !loaded(list).names.contains(name) ==> loaded(list.push((name, card))).names == loaded(
            list,
        ).names.push(name),
        loaded(list.push((name, card))).pings == loaded(list).pings.insert(name, tidy(card)),
        loaded(list).triggered == Map::<Seq<char>, int>::empty(),
{
    assert(list.push((name, card)).drop_last() =~= list);
    let names = loaded(list.push((name, card))).names;
    if !loaded(list).names.contains(name) {
        assert(names.last() == name);
    }
}

} // verus!
