//! The daily 1337 session: who said it in time, what the chat is told, and the all-time
//! leaderboard of the fastest.
use vstd::prelude::*;
use crate::berlin;
use crate::memory::store;
use crate::table;
use crate::table::Table;
use crate::text;
use crate::time::{Duration, Timestamp};

verus! {

pub const TARGET_HOUR: u32 = 13;

pub const TARGET_MINUTE: u32 = 37;

/// Maximum number of unique users of a session.
pub const MAX_USERS: usize = 10_000;

/// The reminder half a minute before the target minute.
pub const REMINDER: &'static str = "PausersHype";

// ---------------------------------------------------------------------------
// Who counts
// ---------------------------------------------------------------------------

/// The names of bots, which do not count.
pub open spec fn clankers() -> Seq<Seq<char>> {
    seq!["supibot"@, "potatbotat"@, "streamelements"@, "koknuts"@, "thedagothur"@]
}

/// Whether a login is that of a bot.
pub fn is_clanker(login: &str) -> (r: bool)
    ensures
        r == clankers().contains(login@),
{
    let r = text::same(login, "supibot") || text::same(login, "potatbotat") || text::same(
        login,
        "streamelements",
    ) || text::same(login, "koknuts") || text::same(login, "thedagothur");
    proof {
        let c = clankers();
        assert(c[0] == "supibot"@ && c[1] == "potatbotat"@ && c[2] == "streamelements"@);
        assert(c[3] == "koknuts"@ && c[4] == "thedagothur"@);
    }
    r
}

/// Whether a message counts: it says "1337" or "DANKIES", and is not from a bot.
pub open spec fn counts(login: Seq<char>, message: Seq<char>) -> bool {
    !clankers().contains(login) && (text::has(message, "DANKIES"@) || text::has(message, "1337"@))
}

pub fn is_valid_1337_message(login: &str, message: &str) -> (r: bool)
    ensures
        r == counts(login@, message@),
{
    if is_clanker(login) {
        return false;
    }
    text::contains(message, "DANKIES") || text::contains(message, "1337")
}

/// The local time of day in Berlin at a point in time, in seconds from midnight.
pub open spec fn time_of_day(secs: int) -> int {
    berlin::local_at(secs) % 86_400
}

/// Whether a point in time lies in the target minute.
pub open spec fn in_target_minute(t: Timestamp) -> bool {
    let s = time_of_day(t.spec_secs() as int);
    s / 3600 == TARGET_HOUR && (s % 3600) / 60 == TARGET_MINUTE
}

/// The milliseconds since the minute began.
pub open spec fn millis_of_minute(t: Timestamp) -> int {
    (time_of_day(t.spec_secs() as int) % 60) * 1000 + t.spec_nanos() as int / 1_000_000
}

/// The milliseconds of a message in the first second of the minute.
pub open spec fn sub_second(t: Timestamp) -> Option<u64> {
    if millis_of_minute(t) < 1000 {
        Some(millis_of_minute(t) as u64)
    } else {
        None
    }
}

/// When a session next begins, in milliseconds from the Unix epoch.
pub open spec fn session_begins(now: int) -> int {
    berlin::next_occurrence(now, 13, 36) * 1000
}

/// When the reminder of the present day is due, in milliseconds from the Unix epoch.
pub open spec fn reminder_due(now: int, latency: int) -> int {
    berlin::today_at(now, 13, 36, 30, latency)
}

/// When the stats of the present day are due, in milliseconds from the Unix epoch.
pub open spec fn stats_due(now: int, latency: int) -> int {
    berlin::today_at(now, 13, 38, 0, latency)
}

/// How long to sleep until a session begins, a minute before the target minute.
pub fn wait_for_session(now: &Timestamp) -> (r: Option<Duration>)
    ensures
        berlin::opt_duration(r) == berlin::time_until(
            now@,
            berlin::next_occurrence(
                now.spec_secs() as int,
                TARGET_HOUR as int,
                TARGET_MINUTE - 1,
            ) * 1000,
        ),
        berlin::opt_duration(r) == berlin::time_until(now@, session_begins(now.spec_secs() as int)),
{
    berlin::wait_until_schedule(now, TARGET_HOUR, TARGET_MINUTE - 1)
}

/// How long to sleep until the reminder is posted, half a minute before the target minute
/// less an expected latency in milliseconds; `None` where that has passed.
pub fn wait_for_reminder(now: &Timestamp, latency: u32) -> (r: Option<Duration>)
    ensures
        berlin::opt_duration(r) == berlin::time_until(
            now@,
            berlin::today_at(
                now.spec_secs() as int,
                TARGET_HOUR as int,
                TARGET_MINUTE - 1,
                30,
                latency as int,
            ),
        ),
        berlin::opt_duration(r) == berlin::time_until(
            now@,
            reminder_due(now.spec_secs() as int, latency as int),
        ),
{
    berlin::sleep_until_hms(now, TARGET_HOUR, TARGET_MINUTE - 1, 30, latency)
}

/// How long to sleep until the stats are posted, at the end of the target minute less an
/// expected latency in milliseconds; `None` where that has passed.
pub fn wait_for_stats(now: &Timestamp, latency: u32) -> (r: Option<Duration>)
    ensures
        berlin::opt_duration(r) == berlin::time_until(
            now@,
            berlin::today_at(
                now.spec_secs() as int,
                TARGET_HOUR as int,
                TARGET_MINUTE + 1,
                0,
                latency as int,
            ),
        ),
        berlin::opt_duration(r) == berlin::time_until(
            now@,
            stats_due(now.spec_secs() as int, latency as int),
        ),
{
    berlin::sleep_until_hms(now, TARGET_HOUR, TARGET_MINUTE + 1, 0, latency)
}

/// The users of a session, each with the milliseconds of their message where it came in
/// the first second.
#[derive(Debug, Clone)]
pub struct Session {
    users: Table<Option<u64>>,
}

/// A session as two sequences: the users in the order of their messages, and their times.
#[verifier::ext_equal]
pub ghost struct Attendance {
    pub users: Seq<Seq<char>>,
    pub times: Seq<Option<u64>>,
}

impl Attendance {
    /// The invariant of a session: no user twice, not too many users, and only times of
    /// the first second.
    pub open spec fn wf(self) -> bool {
        &&& self.users.len() == self.times.len()
        &&& self.users.no_duplicates()
        &&& self.users.len() <= MAX_USERS
        &&& forall|i: int|
            0 <= i < self.times.len() && (#[trigger] self.times[i]) is Some ==> self.times[i]->0
                < 1000
    }

    /// The session after a message.
    pub open spec fn after(self, login: Seq<char>, message: Seq<char>, t: Timestamp) -> Attendance {
        if in_target_minute(t) && counts(login, message) && self.users.len() < MAX_USERS
            && !self.users.contains(login) {
            Attendance { users: self.users.push(login), times: self.times.push(sub_second(t)) }
        } else {
            self
        }
    }
}

impl Session {
    pub closed spec fn wf(&self) -> bool {
        self.users.wf() && self@.wf()
    }

    pub closed spec fn view(&self) -> Attendance {
        Attendance { users: self.users.keys(), times: self.users.vals() }
    }

    pub fn new() -> (r: Session)
        ensures
            r.wf(),
            r@.users.len() == 0,
            r@.times.len() == 0,
            r@.wf(),
    {
        Session { users: Table::new() }
    }

    /// The invariant in terms of the contents.
    pub proof fn lemma_wf(&self)
        requires
            self.wf(),
        ensures
            self@.wf(),
    {
    }

    /// Takes a message that arrived at a point in time.
    pub fn observe(&mut self, login: &str, message: &str, at: &Timestamp)
        requires
            old(self).wf(),
        ensures
            final(self).wf(),
            final(self)@ == old(self)@.after(login@, message@, *at),
    {
        let secs: i64 = at.secs();
        let local: i64 = berlin::local_time(secs);
        let day: i64 = berlin::local_day(local);
        let s: i64 = local - day * berlin::DAY;
        let nanos: u32 = at.nanos();
        proof {
            assert(local as int % 86_400 == s) by {
                vstd::arithmetic::div_mod::lemma_fundamental_div_mod_converse(
                    local as int,
                    86_400,
                    day as int,
                    s as int,
                );
            }
        }
        if s / 3600 != TARGET_HOUR as i64 || (s % 3600) / 60 != TARGET_MINUTE as i64 {
            return;
        }
        if !is_valid_1337_message(login, message) {
            return;
        }
        if self.users.len() >= MAX_USERS || self.users.contains_key(login) {
            return;
        }
        let ms: i64 = (s % 60) * 1000 + (nanos / 1_000_000) as i64;
        let time: Option<u64> = if ms < 1000 {
            Some(ms as u64)
        } else {
            None
        };
        self.users.insert(login.to_owned(), time);
    }

    /// The number of users.
    pub fn count(&self) -> (r: usize)
        requires
            self.wf(),
        ensures
            r == self@.users.len(),
    {
        self.users.len()
    }

    /// The users in ascending order.
    pub fn sorted_users(&self) -> (r: Vec<String>)
        requires
            self.wf(),
        ensures
            text::views(r@) == store::sorted_texts(self@.users),
    {
        let mut out: Vec<String> = Vec::new();
        let mut i: usize = 0;
        while i < self.users.len()
            invariant
                self.wf(),
                i <= self.users.keys().len(),
                out@.len() == i,
                forall|j: int| 0 <= j < i ==> (#[trigger] out@[j])@ == self.users.keys()[j],
            decreases self.users.keys().len() - i,
        {
            out.push(self.users.key_at(i).to_owned());
            i = i + 1;
        }
        assert(text::views(out@) =~= self@.users);
        store::sort_texts(out)
    }

    /// The fastest user of the first second, and their milliseconds; of several alike,
    /// the one who came first.
    pub fn fastest(&self) -> (r: Option<(String, u64)>)
        requires
            self.wf(),
        ensures
            match r {
                Some((name, ms)) => fastest_of(self@.times) matches Some(i) && name@
                    == self@.users[i] && self@.times[i] == Some(ms),
                None => fastest_of(self@.times) is None,
            },
    {
        let ghost times = self@.times;
        let mut best: Option<usize> = None;
        let mut i: usize = 0;
        assert(times.take(0) =~= Seq::<Option<u64>>::empty());
        while i < self.users.len()
            invariant
                self.wf(),
                times == self@.times,
                i <= times.len(),
                match best {
                    Some(b) => b < i && times[b as int] is Some && fastest_of(
                        times.take(i as int),
                    ) == Some(b as int),
                    None => fastest_of(times.take(i as int)) is None,
                },
            decreases times.len() - i,
        {
            assert(times.take(i + 1).drop_last() =~= times.take(i as int));
            if let Some(ms) = *self.users.value_at(i) {
                match best {
                    None => {
                        best = Some(i);
                    },
                    Some(b) => {
                        let other: u64 = self.users.value_at(b).unwrap();
                        if ms < other {
                            best = Some(i);
                        }
                    },
                }
            }
            i = i + 1;
        }
        assert(times.take(i as int) =~= times);
        match best {
            Some(b) => {
                let ms: u64 = self.users.value_at(b).unwrap();
                Some((self.users.key_at(b).to_owned(), ms))
            },
            None => None,
        }
    }
}

/// The position of the smallest time; of several alike, the first.
pub open spec fn fastest_of(times: Seq<Option<u64>>) -> Option<int>
    decreases times.len(),
{
    if times.len() == 0 {
        None
    } else {
        let n = times.len() - 1;
        let best = fastest_of(times.drop_last());
        match times[n] {
            None => best,
            Some(ms) => match best {
                None => Some(n),
                Some(b) => if ms < times[b]->0 {
                    Some(n)
                } else {
                    Some(b)
                },
            },
        }
    }
}

/// The fastest user was not beaten by anyone.
pub proof fn law_fastest_is_minimal(times: Seq<Option<u64>>, i: int)
    requires
        0 <= i < times.len(),
        times[i] is Some,
    ensures
        fastest_of(times) matches Some(b) && 0 <= b < times.len() && times[b] is Some
            && times[b]->0 <= times[i]->0,
    decreases times.len(),
{
    let d = times.drop_last();
    let n = times.len() - 1;
    if i < n {
        law_fastest_is_minimal(d, i);
    } else {
        lemma_fastest_in_range(d);
    }
}

proof fn lemma_fastest_in_range(times: Seq<Option<u64>>)
    ensures
        fastest_of(times) matches Some(b) ==> 0 <= b < times.len() && times[b] is Some,
    decreases times.len(),
{
    if times.len() > 0 {
        lemma_fastest_in_range(times.drop_last());
    }
}

/// However many messages come, a session never has more users than its maximum, and no
/// user twice.
pub proof fn law_session_stays_bounded(
    a: Attendance,
    login: Seq<char>,
    message: Seq<char>,
    t: Timestamp,
)
    requires
        a.wf(),
    ensures
        a.after(login, message, t).wf(),
{
}

/// A second message of a user changes nothing: the first one counts.
pub proof fn law_first_message_counts(
    a: Attendance,
    login: Seq<char>,
    first: Seq<char>,
    t: Timestamp,
    second: Seq<char>,
    u: Timestamp,
)
    requires
        in_target_minute(t),
        counts(login, first),
    ensures
        a.after(login, first, t).after(login, second, u) == a.after(login, first, t),
{
    let b = a.after(login, first, t);
    if a.users.len() < MAX_USERS && !a.users.contains(login) {
        assert(b.users[b.users.len() - 1] == login);
    }
}

// ---------------------------------------------------------------------------
// What the chat is told
// ---------------------------------------------------------------------------

/// A random number below `n`, drawn with `rand::random_range`.
#[verifier::external_body]
fn random_below(n: usize) -> (r: usize)
    requires
        n > 0,
    ensures
        r < n,
{
    rand::random_range(0..n)
}

/// The memes for a count, three for each count that has some.
pub open spec fn meme_list(count: int, second: bool) -> Seq<Seq<char>> {
    if count == 7 && !second {
        seq![
            "777 FORSEN 777 FORSEN 777 FORSEN 777"@,
            "777 FORSEN 777 FORSEN 777"@,
            "777 FORSEN 777"@,
        ]
    } else if count == 6 || count == 7 {
        seq!["6-7"@, "6-7 ICANT"@, "6-7 OOOO"@]
    } else if count == 3 {
        seq!["3Head"@, "3Head Clueless"@, "3Head erm"@]
    } else if count == 4 {
        seq!["4Head Keepo"@, "4Head"@, "4Head FeelsGoodMan"@]
    } else if count == 5 {
        seq![
            "5Head 🍷 Ah yes, I can feel my head throbbing with knowledge and wisdom as I sip upon this Sauvignon blanc"@,
            "5Head Galaxybrain"@,
            "5Head"@,
        ]
    } else if count == 10 {
        seq!["10/10 IGN"@, "Perfect 10 Clap"@, "10, masterpiece Clap"@]
    } else if count == 13 {
        seq!["unlucky 13 monkaW"@, "13 monkaW"@, "13, spooky monkaS"@]
    } else {
        Seq::empty()
    }
}

/// The meme that replaces the stats: the first of the rolls that succeeds selects the
/// list, and `pick` the entry. Only a count of seven has two lists.
pub open spec fn meme_text(count: int, first: bool, second: bool, pick: int) -> Option<Seq<char>> {
    if meme_list(count, false).len() == 0 {
        None
    } else if first {
        Some(meme_list(count, false)[pick])
    } else if count == 7 && second {
        Some(meme_list(count, true)[pick])
    } else {
        None
    }
}

fn third(a: &'static str, b: &'static str, c: &'static str, pick: usize) -> (r: &'static str)
    requires
        pick < 3,
    ensures
        r@ == seq![a@, b@, c@][pick as int],
{
    if pick == 0 {
        a
    } else if pick == 1 {
        b
    } else {
        c
    }
}

/// The meme for a count, given whether the rolls for its rules succeeded and which entry
/// was drawn.
pub fn meme_override(count: usize, first: bool, second: bool, pick: usize) -> (r: Option<
    &'static str,
>)
    requires
        pick < 3,
    ensures
        text::opt_str_view(r) == meme_text(count as int, first, second, pick as int),
{
    if count == 7 && first {
        return Some(
            third(
                "777 FORSEN 777 FORSEN 777 FORSEN 777",
                "777 FORSEN 777 FORSEN 777",
                "777 FORSEN 777",
                pick,
            ),
        );
    }
    if (count == 7 && second) || (count == 6 && first) {
        return Some(third("6-7", "6-7 ICANT", "6-7 OOOO", pick));
    }
    if !first {
        return None;
    }
    if count == 3 {
        Some(third("3Head", "3Head Clueless", "3Head erm", pick))
    } else if count == 4 {
        Some(third("4Head Keepo", "4Head", "4Head FeelsGoodMan", pick))
    } else if count == 5 {
        Some(
            third(
                "5Head 🍷 Ah yes, I can feel my head throbbing with knowledge and wisdom as I sip upon this Sauvignon blanc",
                "5Head Galaxybrain",
                "5Head",
                pick,
            ),
        )
    } else if count == 10 {
        Some(third("10/10 IGN", "Perfect 10 Clap", "10, masterpiece Clap", pick))
    } else if count == 13 {
        Some(third("unlucky 13 monkaW", "13 monkaW", "13, spooky monkaS", pick))
    } else {
        None
    }
}

pub open spec fn sad_words() -> Seq<Seq<char>> {
    seq!["Sadding"@, "Sadge"@, "Sadeg"@, "SadgeCry"@, "Saddies"@]
}

pub open spec fn lukewarm_words() -> Seq<Seq<char>> {
    seq![
        "geht besser Okayge"@,
        "verbesserungswürdig Waiting"@,
        "unterdurchschnittlich Waiting"@,
        "ausbaufähig Waiting"@,
        "entspricht nicht ganz den Erwartungen Waiting"@,
        "bemüht"@,
        "anpassungsfähig YEP"@,
    ]
}

/// Whether the user whose absence is remarked on is there.
pub open spec fn gnocci_there(users: Seq<Seq<char>>) -> bool {
    users.contains("gargoyletec"@)
}

/// How many choices there are for each of the three draws.
pub open spec fn choices(count: int, users: Seq<Seq<char>>) -> (int, int, int) {
    if count == 1 {
        (2, 2, 3)
    } else if 2 <= count <= 3 {
        if gnocci_there(users) {
            (7, 1, 1)
        } else {
            (3, 5, 1)
        }
    } else if count == 4 {
        (2, 2, 1)
    } else {
        (2, 1, 1)
    }
}

/// The stats for a number of users, with what was drawn for the choices in it.
pub open spec fn stats_text(count: int, users: Seq<Seq<char>>, a: int, b: int, c: int) -> Seq<char> {
    let n = text::decimal(count as nat);
    if count == 0 {
        seq!["Erm"@, "fuh"@][a]
    } else if count == 1 {
        if a == 0 {
            "@"@ + users[0] + " zumindest einer "@ + seq!["fuh"@, "uhh"@][b]
        } else {
            "War wohl zu viel verlangt "@ + seq!["BRUHSIT"@, "UltraMad"@, "Madeg"@][c]
        }
    } else if 2 <= count <= 3 {
        if gnocci_there(users) {
            n + ", "@ + lukewarm_words()[a]
        } else {
            n + seq![" und nichtmal"@, ", aber wo"@, " und ohne"@][a] + " gnocci "@ + sad_words()[b]
        }
    } else if count == 4 {
        if a == 0 {
            "3.6, nicht gut, nicht dramatisch"@
        } else {
            n + ", "@ + seq!["Standard Performance"@, "solide"@][b]
        }
    } else if 5 <= count <= 7 {
        n + ", gute Auslese "@ + seq!["bieberbutzemanPepe"@, "peepoHappy"@][a]
    } else {
        n + ", "@ + seq!["insane quota Pag"@, "rekordverdächtig WICKED"@][a]
    }
}

fn half(a: &'static str, b: &'static str, pick: usize) -> (r: &'static str)
    requires
        pick < 2,
    ensures
        r@ == seq![a@, b@][pick as int],
{
    if pick == 0 {
        a
    } else {
        b
    }
}

fn number_then(count: usize, middle: &str, last: &str) -> (r: String)
    ensures
        r@ == text::decimal(count as nat) + middle@ + last@,
{
    let mut s = text::from_usize(count);
    s.push_str(middle);
    s.push_str(last);
    s
}

/// The stats for a number of users, with what was drawn for the choices in it.
pub fn stats_message(count: usize, user_list: &Vec<String>, a: usize, b: usize, c: usize) -> (r:
    String)
    requires
        count == 1 ==> user_list@.len() > 0,
        a < choices(count as int, text::views(user_list@)).0,
        b < choices(count as int, text::views(user_list@)).1,
        c < choices(count as int, text::views(user_list@)).2,
    ensures
        r@ == stats_text(count as int, text::views(user_list@), a as int, b as int, c as int),
{
    let ghost users = text::views(user_list@);
    if count == 0 {
        return half("Erm", "fuh", a).to_owned();
    }
    if count == 1 {
        if a == 0 {
            let mut s = "@".to_owned();
            s.push_str(user_list[0].as_str());
            s.push_str(" zumindest einer ");
            s.push_str(half("fuh", "uhh", b));
            return s;
        }
        let mut s = "War wohl zu viel verlangt ".to_owned();
        s.push_str(third("BRUHSIT", "UltraMad", "Madeg", c));
        return s;
    }
    if count <= 3 {
        if !text::is_one_of("gargoyletec", user_list) {
            let mut s = number_then(
                count,
                third(" und nichtmal", ", aber wo", " und ohne", a),
                " gnocci ",
            );
            s.push_str(
                if b == 0 {
                    "Sadding"
                } else if b == 1 {
                    "Sadge"
                } else if b == 2 {
                    "Sadeg"
                } else if b == 3 {
                    "SadgeCry"
                } else {
                    "Saddies"
                },
            );
            return s;
        }
        let word = if a == 0 {
            "geht besser Okayge"
        } else if a == 1 {
            "verbesserungswürdig Waiting"
        } else if a == 2 {
            "unterdurchschnittlich Waiting"
        } else if a == 3 {
            "ausbaufähig Waiting"
        } else if a == 4 {
            "entspricht nicht ganz den Erwartungen Waiting"
        } else if a == 5 {
            "bemüht"
        } else {
            "anpassungsfähig YEP"
        };
        return number_then(count, ", ", word);
    }
    if count == 4 {
        if a == 0 {
            return "3.6, nicht gut, nicht dramatisch".to_owned();
        }
        return number_then(count, ", ", half("Standard Performance", "solide", b));
    }
    if count <= 7 {
        return number_then(count, ", gute Auslese ", half("bieberbutzemanPepe", "peepoHappy", a));
    }
    number_then(count, ", ", half("insane quota Pag", "rekordverdächtig WICKED", a))
}

/// The stats or the meme in their place, with what was drawn.
pub open spec fn announcement(
    count: int,
    users: Seq<Seq<char>>,
    first: bool,
    second: bool,
    pick: int,
    a: int,
    b: int,
    c: int,
) -> Seq<char> {
    match meme_text(count, first, second, pick) {
        Some(meme) => meme,
        None => stats_text(count, users, a, b, c),
    }
}

/// Whether draws lie in the ranges that they are made from.
pub open spec fn drawn(
    count: int,
    users: Seq<Seq<char>>,
    pick: int,
    a: int,
    b: int,
    c: int,
) -> bool {
    let n = choices(count, users);
    0 <= pick < 3 && 0 <= a < n.0 && 0 <= b < n.1 && 0 <= c < n.2
}

/// Makes the announcement for a number of users. `first` and `second` say whether the
/// rolls for the memes of the count succeeded; the rest is drawn at random.
pub fn generate_stats_message(
    count: usize,
    user_list: &Vec<String>,
    first: bool,
    second: bool,
) -> (r: String)
    requires
        count == 1 ==> user_list@.len() > 0,
    ensures
        exists|pick: int, a: int, b: int, c: int|
            drawn(count as int, text::views(user_list@), pick, a, b, c) && r@
                == #[trigger] announcement(
                count as int,
                text::views(user_list@),
                first,
                second,
                pick,
                a,
                b,
                c,
            ),
{
    let ghost users = text::views(user_list@);
    let there = text::is_one_of("gargoyletec", user_list);
    let pick: usize = random_below(3);
    let na: usize = if count == 2 || count == 3 {
        if there {
            7
        } else {
            3
        }
    } else {
        2
    };
    let nb: usize = if count == 1 || count == 4 {
        2
    } else if (count == 2 || count == 3) && !there {
        5
    } else {
        1
    };
    let nc: usize = if count == 1 {
        3
    } else {
        1
    };
    let a: usize = random_below(na);
    let b: usize = random_below(nb);
    let c: usize = random_below(nc);
    assert(drawn(count as int, users, pick as int, a as int, b as int, c as int));
    let r = match meme_override(count, first, second, pick) {
        Some(meme) => meme.to_owned(),
        None => stats_message(count, user_list, a, b, c),
    };
    assert(r@ == announcement(
        count as int,
        users,
        first,
        second,
        pick as int,
        a as int,
        b as int,
        c as int,
    ));
    r
}

// ---------------------------------------------------------------------------
// The leaderboard
// ---------------------------------------------------------------------------

/// A user's personal best: milliseconds after 13:37:00.000, and the date in Berlin as a
/// number of days from the Unix epoch.
#[derive(Debug, Clone, Copy, PartialEq, Eq, Structural)]
pub struct PersonalBest {
    pub ms: u64,
    pub date: i64,
}

/// Whether a time beats the personal best of a user.
pub open spec fn beats(board: Map<Seq<char>, PersonalBest>, user: Seq<char>, ms: u64) -> bool {
    !board.contains_key(user) || ms < board[user].ms
}

/// The leaderboard after the times of some users of a session.
pub open spec fn updated(
    board: Map<Seq<char>, PersonalBest>,
    a: Attendance,
    date: i64,
    n: int,
) -> Map<Seq<char>, PersonalBest>
    decreases n,
{
    if n <= 0 {
        board
    } else {
        let before = updated(board, a, date, n - 1);
        match a.times[n - 1] {
            Some(ms) => if beats(before, a.users[n - 1], ms) {
                before.insert(a.users[n - 1], PersonalBest { ms, date })
            } else {
                before
            },
            None => before,
        }
    }
}

/// A personal best never gets worse, and nobody is taken off the leaderboard.
pub proof fn law_leaderboard_never_worsens(
    board: Map<Seq<char>, PersonalBest>,
    a: Attendance,
    date: i64,
    n: int,
    user: Seq<char>,
)
    requires
        board.contains_key(user),
    ensures
        updated(board, a, date, n).contains_key(user),
        updated(board, a, date, n)[user].ms <= board[user].ms,
    decreases n,
{
    if n > 0 {
        law_leaderboard_never_worsens(board, a, date, n - 1, user);
    }
}

/// After a session, no one on it has a personal best above the time they had in it.
pub proof fn law_leaderboard_takes_session(
    board: Map<Seq<char>, PersonalBest>,
    a: Attendance,
    date: i64,
    n: int,
    i: int,
)
    requires
        0 <= i < n <= a.users.len(),
        a.times.len() == a.users.len(),
        a.times[i] is Some,
    ensures
        updated(board, a, date, n).contains_key(a.users[i]),
        updated(board, a, date, n)[a.users[i]].ms <= a.times[i]->0,
    decreases n,
{
    if i < n - 1 {
        law_leaderboard_takes_session(board, a, date, n - 1, i);
    }
}

/// What the announcement says about the fastest user.
pub open spec fn fastest_text(name: Seq<char>, ms: u64, record: bool) -> Seq<char> {
    let base = " | "@ + name + " war mass schnellste mit "@ + text::decimal(ms as nat) + "ms"@;
    if record {
        base + " - neuer Rekord!"@
    } else {
        base
    }
}

/// An announcement with who was fastest, where anyone wrote in the first second.
pub open spec fn with_fastest(
    message: Seq<char>,
    a: Attendance,
    board: Map<Seq<char>, PersonalBest>,
) -> Seq<char> {
    match fastest_of(a.times) {
        Some(i) => message + fastest_text(
            a.users[i],
            a.times[i]->0,
            beats(board, a.users[i], a.times[i]->0),
        ),
        None => message,
    }
}

/// Appends to the announcement who was fastest, and whether that is their record.
pub fn push_fastest(
    message: &mut String,
    session: &Session,
    leaderboard: &Table<PersonalBest>,
)
    requires
        session.wf(),
        leaderboard.wf(),
    ensures
        final(message)@ == match fastest_of(session@.times) {
            Some(i) => old(message)@ + fastest_text(
                session@.users[i],
                session@.times[i]->0,
                beats(leaderboard@, session@.users[i], session@.times[i]->0),
            ),
            None => old(message)@,
        },
        final(message)@ == with_fastest(old(message)@, session@, leaderboard@),
{
    if let Some((name, ms)) = session.fastest() {
        let record = match leaderboard.get(name.as_str()) {
            Some(pb) => ms < pb.ms,
            None => true,
        };
        let mut s = " | ".to_owned();
        s.push_str(name.as_str());
        s.push_str(" war mass schnellste mit ");
        let d = text::from_u64(ms);
        s.push_str(d.as_str());
        s.push_str("ms");
        if record {
            s.push_str(" - neuer Rekord!");
        }
        message.push_str(s.as_str());
    }
}

/// Takes the times of a session into the leaderboard, where they are personal bests.
pub fn update_leaderboard(leaderboard: &mut Table<PersonalBest>, session: &Session, today: i64)
    requires
        old(leaderboard).wf(),
        session.wf(),
    ensures
        final(leaderboard).wf(),
        final(leaderboard)@ == updated(
            old(leaderboard)@,
            session@,
            today,
            session@.users.len() as int,
        ),
{
    let ghost a = session@;
    let mut i: usize = 0;
    while i < session.users.len()
        invariant
            session.wf(),
            leaderboard.wf(),
            a == session@,
            i <= a.users.len(),
            leaderboard@ == updated(old(leaderboard)@, a, today, i as int),
        decreases a.users.len() - i,
    {
        if let Some(ms) = *session.users.value_at(i) {
            let name = session.users.key_at(i);
            let better = match leaderboard.get(name) {
                Some(existing) => ms < existing.ms,
                None => true,
            };
            if better {
                leaderboard.insert(name.to_owned(), PersonalBest { ms, date: today });
            }
        }
        i = i + 1;
    }
}

/// The position of the smallest time on the leaderboard; of several alike, the first.
pub open spec fn best_of(vals: Seq<PersonalBest>) -> Option<int>
    decreases vals.len(),
{
    if vals.len() == 0 {
        None
    } else {
        let n = vals.len() - 1;
        match best_of(vals.drop_last()) {
            None => Some(n),
            Some(b) => if vals[n].ms < vals[b].ms {
                Some(n)
            } else {
                Some(b)
            },
        }
    }
}

/// Whether a leaderboard holds only dates that texts can be made for.
pub open spec fn dates_ok(vals: Seq<PersonalBest>) -> bool {
    forall|i: int|
        0 <= i < vals.len() ==> berlin::MIN_DAY <= (#[trigger] vals[i]).date <= berlin::MAX_DAY
}

/// The reply to a request for the leaderboard.
pub open spec fn leaderboard_text(keys: Seq<Seq<char>>, vals: Seq<PersonalBest>) -> Seq<char> {
    match best_of(vals) {
        Some(i) => "Der schnellste 1337 ist "@ + keys[i] + " mit "@ + text::decimal(
            vals[i].ms as nat,
        ) + "ms am "@ + berlin::day_text(vals[i].date as int),
        None => "Noch keine Einträge vorhanden"@,
    }
}

/// The reply to a request for the leaderboard: the fastest user of all time.
pub fn leaderboard_reply(leaderboard: &Table<PersonalBest>) -> (r: String)
    requires
        leaderboard.wf(),
        dates_ok(leaderboard.vals()),
    ensures
        r@ == leaderboard_text(leaderboard.keys(), leaderboard.vals()),
{
    let ghost vals = leaderboard.vals();
    let mut best: Option<usize> = None;
    let mut i: usize = 0;
    assert(vals.take(0) =~= Seq::<PersonalBest>::empty());
    while i < leaderboard.len()
        invariant
            leaderboard.wf(),
            vals == leaderboard.vals(),
            i <= vals.len(),
            match best {
                Some(b) => b < i && best_of(vals.take(i as int)) == Some(b as int),
                None => i == 0,
            },
            i == 0 ==> best is None,
        decreases vals.len() - i,
    {
        assert(vals.take(i + 1).drop_last() =~= vals.take(i as int));
        match best {
            None => {
                best = Some(i);
            },
            Some(b) => {
                if leaderboard.value_at(i).ms < leaderboard.value_at(b).ms {
                    best = Some(i);
                }
            },
        }
        i = i + 1;
    }
    assert(vals.take(i as int) =~= vals);
    match best {
        Some(b) => {
            let pb = leaderboard.value_at(b);
            let mut s = "Der schnellste 1337 ist ".to_owned();
            s.push_str(leaderboard.key_at(b));
            s.push_str(" mit ");
            let d = text::from_u64(pb.ms);
            s.push_str(d.as_str());
            s.push_str("ms am ");
            let day = berlin::format_day(pb.date);
            s.push_str(day.as_str());
            s
        },
        None => "Noch keine Einträge vorhanden".to_owned(),
    }
}


// ---------------------------------------------------------------------------
// Who is named
// ---------------------------------------------------------------------------

/// The best entry of a leaderboard that is not empty is one of its entries, and no entry has
/// fewer milliseconds; of those with as many, it is the first.
pub proof fn law_best_entry_is_minimal(vals: Seq<PersonalBest>)
    ensures
        vals.len() == 0 <==> best_of(vals) is None,
        best_of(vals) matches Some(b) ==> {
            &&& 0 <= b < vals.len()
            &&& forall|i: int| 0 <= i < vals.len() ==> vals[b].ms <= (#[trigger] vals[i]).ms
            &&& forall|i: int| 0 <= i < b ==> vals[b].ms < (#[trigger] vals[i]).ms
        },
    decreases vals.len(),
{
    if vals.len() > 0 {
        let rest = vals.drop_last();
        law_best_entry_is_minimal(rest);
        if let Some(c) = best_of(rest) {
            assert(rest[c] == vals[c]);
        }
        let b = best_of(vals)->0;
        assert forall|i: int| 0 <= i < vals.len() implies vals[b].ms <= (
        #[trigger] vals[i]).ms by {
            if i < rest.len() {
                assert(rest[i] == vals[i]);
            }
        }
        assert forall|i: int| 0 <= i < b implies vals[b].ms < (#[trigger] vals[i]).ms by {
            if i < rest.len() {
                assert(rest[i] == vals[i]);
            }
        }
    }
}

/// The reply about a leaderboard names an entry that nobody beats, with the name, the
/// milliseconds and the day of that entry.
pub proof fn law_leaderboard_names_the_fastest(keys: Seq<Seq<char>>, vals: Seq<PersonalBest>)
    requires
        vals.len() > 0,
        keys.len() == vals.len(),
    ensures
        exists|b: int|
            {
                &&& 0 <= b < vals.len()
                &&& forall|i: int| 0 <= i < vals.len() ==> (#[trigger] vals[b]).ms <= (
                #[trigger] vals[i]).ms
                &&& text::has_prefix(
                    leaderboard_text(keys, vals),
                    "Der schnellste 1337 ist "@ + keys[b] + " mit "@ + text::decimal(
                        vals[b].ms as nat,
                    ) + "ms"@,
                )
                &&& text::has_suffix(
                    leaderboard_text(keys, vals),
                    berlin::formatted((vals[b].date * 86_400) as i64, "%d.%m.%Y"@),
                )
            },
{
    broadcast use text::group_parts;

    law_best_entry_is_minimal(vals);
    let b = best_of(vals)->0;
    let full = leaderboard_text(keys, vals);
    let head = "Der schnellste 1337 ist "@ + keys[b] + " mit "@ + text::decimal(vals[b].ms as nat)
        + "ms"@;
    reveal_strlit("ms");
    reveal_strlit("ms am ");
    reveal_strlit(" am ");
    assert(full.subrange(0, head.len() as int) =~= head);
    assert(vals[b] == vals[b]);
}

/// The fastest user of a session is one of those with a time, nobody has a smaller one, and
/// of several alike the first is named; there is none just where nobody has a time.
pub proof fn law_first_of_the_fastest(times: Seq<Option<u64>>)
    ensures
        fastest_of(times) is None <==> forall|i: int|
            0 <= i < times.len() ==> (#[trigger] times[i]) is None,
        fastest_of(times) matches Some(b) ==> {
            &&& 0 <= b < times.len() && times[b] is Some
            &&& forall|i: int|
                0 <= i < times.len() && (#[trigger] times[i]) is Some ==> times[b]->0
                    <= times[i]->0
            &&& forall|i: int|
                0 <= i < b && (#[trigger] times[i]) is Some ==> times[b]->0 < times[i]->0
        },
    decreases times.len(),
{
    if times.len() > 0 {
        let rest = times.drop_last();
        law_first_of_the_fastest(rest);
        assert forall|i: int| 0 <= i < rest.len() implies rest[i] == #[trigger] times[i] by {}
        if fastest_of(rest) is None {
            assert forall|i: int| 0 <= i < rest.len() implies (#[trigger] times[i]) is None by {
                assert(rest[i] == times[i]);
            }
        } else {
            assert(rest[fastest_of(rest)->0] == times[fastest_of(rest)->0]);
        }
    }
}

/// The announcement names a user whom nobody in the session beats, with their time, and says
/// that it is a record just where it beats what the leaderboard has for them or they are
/// new; where nobody was in time, it says nothing more.
pub proof fn law_fastest_user_is_named(
    message: Seq<char>,
    a: Attendance,
    board: Map<Seq<char>, PersonalBest>,
)
    requires
        a.users.len() == a.times.len(),
    ensures
        (forall|i: int| 0 <= i < a.times.len() ==> (#[trigger] a.times[i]) is None)
            ==> with_fastest(message, a, board) == message,
        text::has_prefix(with_fastest(message, a, board), message),
        (exists|i: int| 0 <= i < a.times.len() && (#[trigger] a.times[i]) is Some) ==> exists|
            b: int,
        |
            {
                &&& 0 <= b < a.times.len() && (#[trigger] a.times[b]) is Some
                &&& forall|i: int|
                    0 <= i < a.times.len() && (#[trigger] a.times[i]) is Some ==> a.times[b]->0
                        <= a.times[i]->0
                &&& text::has(with_fastest(message, a, board), a.users[b])
                &&& text::has(
                    with_fastest(message, a, board),
                    text::decimal(a.times[b]->0 as nat),
                )
                &&& text::has_suffix(with_fastest(message, a, board), " - neuer Rekord!"@) <==> (
                !board.contains_key(a.users[b]) || a.times[b]->0 < board[a.users[b]].ms)
            },
{
    broadcast use text::group_parts;

    law_first_of_the_fastest(a.times);
    if let Some(b) = fastest_of(a.times) {
        let s = with_fastest(message, a, board);
        let ms = text::decimal(a.times[b]->0 as nat);
        reveal_strlit("ms");
        reveal_strlit(" - neuer Rekord!");
        if beats(board, a.users[b], a.times[b]->0) {
            let t = fastest_text(a.users[b], a.times[b]->0, true);
            assert(text::has_suffix(t, " - neuer Rekord!"@));
        } else {
            assert(s.last() == 's');
            assert(!text::has_suffix(s, " - neuer Rekord!"@)) by {
                if text::has_suffix(s, " - neuer Rekord!"@) {
                    let r = " - neuer Rekord!"@;
                    assert(s.subrange(s.len() - r.len(), s.len() as int).last() == r.last());
                }
            }
        }
    }
}

/// A message counts in the minute from 13:37 on in Berlin, where it says "1337" or
/// "DANKIES", is not from a bot, and is the first one of its user; in the first second it
/// counts with its milliseconds.
pub proof fn law_messages_of_the_minute_count(
    a: Attendance,
    login: Seq<char>,
    message: Seq<char>,
    t: Timestamp,
)
    ensures
        ({
            let second = (t.spec_secs() + berlin::berlin_offset(t.spec_secs())) % 86_400;
            let millis = 1000 * (second - 49_020) + t.spec_nanos() as int / 1_000_000;
            let b = a.after(login, message, t);
            let said = text::has(message, "1337"@) || text::has(message, "DANKIES"@);
            let bot = login == "supibot"@ || login == "potatbotat"@ || login == "streamelements"@
                || login == "koknuts"@ || login == "thedagothur"@;
            &&& !(49_020 <= second < 49_080) || !said || bot || a.users.contains(login) ==> b == a
            &&& 49_020 <= second < 49_080 && said && !bot && !a.users.contains(login)
                && a.users.len() < 10_000 ==> {
                &&& b.users == a.users.push(login)
                &&& millis < 1000 ==> b.times == a.times.push(Some(millis as u64))
                &&& millis >= 1000 ==> b.times == a.times.push(None)
            }
        }),
{
    let c = clankers();
    assert(c[0] == "supibot"@ && c[1] == "potatbotat"@ && c[2] == "streamelements"@);
    assert(c[3] == "koknuts"@ && c[4] == "thedagothur"@);
}

/// A session begins a minute before 13:37, the reminder comes half a minute before it, and
/// the stats a minute after it, each less the latency.
pub proof fn law_day_of_the_session(now: i64, latency: int, reminder: i64, stats: i64)
    requires
        ({
            let midnight = 86_400 * ((now + berlin::berlin_offset(now)) / 86_400);
            &&& berlin::berlin_instants((midnight + 48_990) as i64) == berlin::LocalTimes::Single(
                reminder,
            )
            &&& berlin::berlin_instants((midnight + 49_080) as i64) == berlin::LocalTimes::Single(
                stats,
            )
        }),
    ensures
        reminder_due(now as int, latency) == 1000 * reminder - latency,
        stats_due(now as int, latency) == 1000 * stats - latency,
        session_begins(now as int) == 1000 * berlin::next_occurrence(now as int, 13, 36),
{
}

proof fn lemma_others_stay(
    board: Map<Seq<char>, PersonalBest>,
    a: Attendance,
    date: i64,
    n: int,
    user: Seq<char>,
)
    requires
        0 <= n <= a.users.len(),
        forall|i: int| 0 <= i < n ==> #[trigger] a.users[i] != user,
    ensures
        updated(board, a, date, n).contains_key(user) == board.contains_key(user),
        board.contains_key(user) ==> updated(board, a, date, n)[user] == board[user],
    decreases n,
{
    if n > 0 {
        lemma_others_stay(board, a, date, n - 1, user);
        assert(a.users[n - 1] != user);
    }
}

/// A user of a session gets a new personal best, with the day, just where they have a time
/// and it beats the one they have, or they have none; whoever was not there keeps theirs.
pub proof fn law_personal_bests_are_kept(
    board: Map<Seq<char>, PersonalBest>,
    a: Attendance,
    date: i64,
    user: Seq<char>,
)
    requires
        a.users.no_duplicates(),
        a.users.len() == a.times.len(),
    ensures
        ({
            let after = updated(board, a, date, a.users.len() as int);
            &&& !a.users.contains(user) ==> after.contains_key(user) == board.contains_key(user) && (
            board.contains_key(user) ==> after[user] == board[user])
            &&& forall|i: int|
                0 <= i < a.users.len() && #[trigger] a.users[i] == user ==> {
                    &&& a.times[i] is None ==> after.contains_key(user) == board.contains_key(user)
                        && (board.contains_key(user) ==> after[user] == board[user])
                    &&& a.times[i] matches Some(ms) ==> after.contains_key(user) && (if board.contains_key(user) && board[user].ms <= ms {
                        after[user] == board[user]
                    } else {
                        after[user] == (PersonalBest { ms, date })
                    })
                }
        }),
{
    let n = a.users.len() as int;
    if !a.users.contains(user) {
        lemma_others_stay(board, a, date, n, user);
    }
    assert forall|i: int| 0 <= i < n && #[trigger] a.users[i] == user implies {
        let after = updated(board, a, date, n);
        &&& a.times[i] is None ==> after.contains_key(user) == board.contains_key(user) && (
        board.contains_key(user) ==> after[user] == board[user])
        &&& a.times[i] matches Some(ms) ==> after.contains_key(user) && (if board.contains_key(user)
            && board[user].ms <= ms {
            after[user] == board[user]
        } else {
            after[user] == (PersonalBest { ms, date })
        })
    } by {
        lemma_others_stay(board, a, date, i, user);
        lemma_tail_keeps(board, a, date, i + 1, n, user);
    }
}

proof fn lemma_tail_keeps(
    board: Map<Seq<char>, PersonalBest>,
    a: Attendance,
    date: i64,
    from: int,
    to: int,
    user: Seq<char>,
)
    requires
        0 <= from <= to <= a.users.len(),
        forall|i: int| from <= i < to ==> #[trigger] a.users[i] != user,
    ensures
        updated(board, a, date, to).contains_key(user) == updated(board, a, date, from).contains_key(
            user,
        ),
        updated(board, a, date, from).contains_key(user) ==> updated(board, a, date, to)[user]
            == updated(board, a, date, from)[user],
    decreases to - from,
{
    if from < to {
        lemma_tail_keeps(board, a, date, from, to - 1, user);
        assert(a.users[to - 1] != user);
    }
}

/// The stats say how many users there were, from two on, but for a word on four of them.
/// Two or three are told apart by whether a certain user is there; more get better words.
pub proof fn law_stats_tell_the_number(count: int, users: Seq<Seq<char>>, a: int, b: int, c: int)
    requires
        count >= 2,
        0 <= a < choices(count, users).0,
        0 <= b < choices(count, users).1,
    ensures
        count != 4 || a != 0 ==> text::has_prefix(
            stats_text(count, users, a, b, c),
            text::decimal(count as nat),
        ),
        count <= 3 && !users.contains("gargoyletec"@) ==> text::has(
            stats_text(count, users, a, b, c),
            " gnocci "@,
        ),
        5 <= count <= 7 ==> text::has(stats_text(count, users, a, b, c), ", gute Auslese "@),
        count >= 8 ==> stats_text(count, users, a, b, c) == text::decimal(count as nat) + ", "@ + (
        if a == 0 {
            "insane quota Pag"@
        } else {
            "rekordverdächtig WICKED"@
        }),
{
    broadcast use text::group_parts;

}

/// A meme takes the place of the stats only for some numbers of users, and only where a roll
/// succeeds; and it is one of three.
pub proof fn law_memes_are_rolled(count: int, first: bool, second: bool, pick: int)
    requires
        0 <= pick < 3,
    ensures
        meme_text(count, first, second, pick) is Some <==> {
            ||| first && (count == 3 || count == 4 || count == 5 || count == 6 || count == 7
                || count == 10 || count == 13)
            ||| second && count == 7
        },
        meme_list(count, false).len() == 0 || meme_list(count, false).len() == 3,
        count == 7 && !first && second ==> meme_text(7, first, second, pick) == meme_text(
            6,
            true,
            second,
            pick,
        ),
{
}


/// Where a roll for a meme of the number succeeds, one of its memes is announced, else the
/// stats.
pub proof fn law_memes_take_the_place_of_stats(
    count: int,
    users: Seq<Seq<char>>,
    first: bool,
    second: bool,
    pick: int,
    a: int,
    b: int,
    c: int,
)
    ensures
        !first && !second ==> announcement(count, users, first, second, pick, a, b, c)
            == stats_text(count, users, a, b, c),
        meme_text(count, first, second, pick) matches Some(m) ==> announcement(
            count,
            users,
            first,
            second,
            pick,
            a,
            b,
            c,
        ) == m,
        count == 0 || count == 1 || count == 2 || count == 8 || count == 9 || count == 11 || count
            == 12 || count > 13 ==> announcement(count, users, first, second, pick, a, b, c)
            == stats_text(count, users, a, b, c),
{
}

/// Draws lie within what there is to choose from, so that each finds a text.
pub proof fn law_draws_find_texts(
    count: int,
    users: Seq<Seq<char>>,
    pick: int,
    a: int,
    b: int,
    c: int,
)
    requires
        drawn(count, users, pick, a, b, c),
    ensures
        0 <= pick <= 2,
        a >= 0 && b >= 0 && c >= 0,
        count == 1 ==> a <= 1 && b <= 1 && c <= 2,
        (count == 2 || count == 3) && users.contains("gargoyletec"@) ==> a < lukewarm_words().len(),
        (count == 2 || count == 3) && !users.contains("gargoyletec"@) ==> a <= 2 && b
            < sad_words().len(),
        count == 4 ==> a <= 1 && b <= 1,
        count == 0 || count >= 5 ==> a <= 1,
{
}


/// Every text that there is for a number can be drawn.
pub proof fn law_every_text_can_be_drawn(count: int, users: Seq<Seq<char>>)
    requires
        count >= 0,
    ensures
        choices(count, users).0 >= 1 && choices(count, users).1 >= 1 && choices(count, users).2
            >= 1,
        count == 0 || count == 1 || count >= 4 ==> choices(count, users).0 == 2,
        count == 1 ==> choices(count, users).1 == 2 && choices(count, users).2 == 3,
        count == 4 ==> choices(count, users).1 == 2,
        (count == 2 || count == 3) && users.contains("gargoyletec"@) ==> choices(count, users).0
            == lukewarm_words().len(),
        (count == 2 || count == 3) && !users.contains("gargoyletec"@) ==> choices(count, users).0
            == 3 && choices(count, users).1 == sad_words().len(),
{
}

/// What is said of few: nothing but a sound where nobody came; where one did, their name or
/// that it was too much to ask; and of four a number or a figure.
pub proof fn law_few_are_remarked_on(users: Seq<Seq<char>>, a: int, b: int, c: int)
    requires
        0 <= a <= 1,
        0 <= b <= 1,
        0 <= c <= 2,
    ensures
        stats_text(0, users, a, b, c) == if a == 0 {
            "Erm"@
        } else {
            "fuh"@
        },
        a == 0 ==> text::has_prefix(stats_text(1, users, a, b, c), "@"@ + users[0]),
        a == 1 ==> text::has_prefix(stats_text(1, users, a, b, c), "War wohl zu viel verlangt "@),
        a == 0 ==> text::has_prefix(stats_text(4, users, a, b, c), "3.6, "@),
        a == 1 ==> text::has_prefix(stats_text(4, users, a, b, c), text::decimal(4) + ", "@),
{
    broadcast use text::group_parts;

    reveal_strlit("3.6, ");
    reveal_strlit("3.6, nicht gut, nicht dramatisch");
    assert("3.6, nicht gut, nicht dramatisch"@.subrange(0, 5) =~= "3.6, "@);
}

} // verus!
