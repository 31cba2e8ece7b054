//! The daily consolidation of the memory: what is dropped and boosted without asking, and
//! how a language model curates the rest, scope by scope.
use vstd::prelude::*;
use crate::llm;
use crate::llm::{Message, ToolCall, ToolCallRound, ToolChatCompletionResponse, ToolResultMessage};
use crate::memory::store;
use crate::memory::store::{Memory, MemoryStore};
use crate::order;
use crate::order::Item;
use crate::text;
use crate::time;
use crate::time::Timestamp;

verus! {

/// Which model consolidates.
#[derive(Debug, Clone)]
pub struct ConsolidationLlmConfig {
    pub model: String,
    pub reasoning_effort: Option<String>,
}

/// Memories with less confidence are dropped once they are stale.
pub const DROP_BELOW_CONFIDENCE: u8 = 10;

/// Days without access after which a memory is stale.
pub const STALE_DAYS: i128 = 60;

/// The same span in nanoseconds.
pub const STALE_AFTER: i128 = STALE_DAYS * 86_400 * 1_000_000_000;

/// The rounds of tool calls that a scope is given.
pub const MAX_ROUNDS: usize = 5;

// ---------------------------------------------------------------------------
// What is done without asking
// ---------------------------------------------------------------------------

/// The whole days since a fact was last accessed.
pub open spec fn stale_days(f: store::Fact, now: Timestamp) -> int {
    time::quot(time::quot(now@ - f.last_accessed@, 1_000_000_000), 86_400)
}

/// Whether a fact is dropped without asking: little confidence, and last accessed more
/// than so many days ago.
pub open spec fn is_hard_drop(f: store::Fact, now: Timestamp) -> bool {
    f.confidence < DROP_BELOW_CONFIDENCE && now@ - f.last_accessed@ > STALE_AFTER
}

pub open spec fn drop_reason(f: store::Fact, now: Timestamp) -> Seq<char> {
    "confidence="@ + text::decimal(f.confidence as nat) + " stale_days="@ + text::signed_decimal(
        stale_days(f, now),
    )
}

/// The keys that are dropped without asking, each with the reason.
pub open spec fn hard_drops(s: store::Shelf, now: Timestamp) -> Seq<(Seq<char>, Seq<char>)>
    decreases s.facts.len(),
{
    if s.facts.len() == 0 {
        Seq::empty()
    } else {
        let rest = hard_drops(
            store::Shelf { keys: s.keys.drop_last(), facts: s.facts.drop_last() },
            now,
        );
        if is_hard_drop(s.facts.last(), now) {
            rest.push((s.keys.last(), drop_reason(s.facts.last(), now)))
        } else {
            rest
        }
    }
}

pub open spec fn pairs(v: Seq<(String, String)>) -> Seq<(Seq<char>, Seq<char>)> {
    Seq::new(v.len(), |i: int| (v[i].0@, v[i].1@))
}

/// Lists the memories with little confidence that were not accessed for long, each with
/// the reason.
pub fn hard_drop_candidates(s: &MemoryStore, now: Timestamp) -> (r: Vec<(String, String)>)
    requires
        s.wf(),
    ensures
        pairs(r@) == hard_drops(s.shelf(), now),
{
    let ghost all = s.shelf();
    let mut out: Vec<(String, String)> = Vec::new();
    let mut i: usize = 0;
    proof {
        assert(pairs(out@) =~= Seq::<(Seq<char>, Seq<char>)>::empty());
        assert(all.facts.take(0) =~= Seq::<store::Fact>::empty());
    }
    while i < s.memories.len()
        invariant
            s.wf(),
            all == s.shelf(),
            i <= all.facts.len(),
            pairs(out@) == hard_drops(
                store::Shelf { keys: all.keys.take(i as int), facts: all.facts.take(i as int) },
                now,
            ),
        decreases all.facts.len() - i,
    {
        let ghost before = pairs(out@);
        proof {
            assert(all.facts.take(i + 1).drop_last() =~= all.facts.take(i as int));
            assert(all.keys.take(i + 1).drop_last() =~= all.keys.take(i as int));
        }
        let m = s.memories.value_at(i);
        assert(m@ == all.facts[i as int]);
        let age = now.since(&m.last_accessed);
        if m.confidence < DROP_BELOW_CONFIDENCE && age.nanos > STALE_AFTER {
            let days: i128 = age.num_days();
            let mut reason = "confidence=".to_owned();
            let c = text::from_u64(m.confidence as u64);
            reason.push_str(c.as_str());
            reason.push_str(" stale_days=");
            let d = text::from_u128(days as u128);
            reason.push_str(d.as_str());
            let key = s.memories.key_at(i).to_owned();
            let ghost p = (key@, reason@);
            out.push((key, reason));
            assert(pairs(out@) =~= before.push(p));
        }
        i = i + 1;
    }
    proof {
        assert(all.facts.take(i as int) =~= all.facts);
        assert(all.keys.take(i as int) =~= all.keys);
    }
    out
}

/// The confidence that several sources lend a fact: five more for each source beyond the
/// first, up to 100.
pub open spec fn boosted(f: store::Fact) -> u8 {
    let n = store::count_real(f.sources);
    let bonus = if n > 1 {
        5 * (n - 1)
    } else {
        0
    };
    if f.confidence + bonus > 100 {
        100
    } else {
        (f.confidence + bonus) as u8
    }
}

/// The confidence of a memory, raised by five for each source beyond the first. The two
/// stand-ins for an unknown source do not count.
pub fn corroboration_boost(m: &Memory) -> (r: u8)
    ensures
        r == boosted(m@),
        r <= 100,
{
    let distinct: usize = store::count_real_sources(&m.sources);
    let extra: usize = if distinct > 1 {
        distinct - 1
    } else {
        0
    };
    if extra >= 20 {
        100
    } else {
        let sum: u32 = m.confidence as u32 + 5 * extra as u32;
        if sum > 100 {
            100
        } else {
            sum as u8
        }
    }
}

/// A boost never lowers a confidence of at most 100, and never goes beyond 100.
pub proof fn law_boost_is_monotone(f: store::Fact)
    ensures
        boosted(f) <= 100,
        f.confidence <= 100 ==> f.confidence <= boosted(f),
{
}

/// Facts with the confidence that their sources lend them.
pub open spec fn all_boosted(facts: Seq<store::Fact>) -> Seq<store::Fact> {
    Seq::new(
        facts.len(),
        |i: int| store::Fact { confidence: boosted(facts[i]), ..facts[i] },
    )
}

/// The keys of some pairs.
pub open spec fn firsts(list: Seq<(Seq<char>, Seq<char>)>) -> Seq<Seq<char>> {
    Seq::new(list.len(), |i: int| list[i].0)
}

/// A shelf after what is done without asking.
pub open spec fn prefiltered(s: store::Shelf, now: Timestamp) -> store::Shelf {
    let kept = store::without_all(s, firsts(hard_drops(s, now)));
    store::Shelf { keys: kept.keys, facts: all_boosted(kept.facts) }
}

/// Drops what is dropped without asking, then raises the confidence of the rest by their
/// sources. Says how many were dropped.
pub fn prefilter(s: &mut MemoryStore, now: Timestamp) -> (dropped: usize)
    requires
        old(s).wf(),
    ensures
        final(s).wf(),
        final(s).identities == old(s).identities,
        final(s).version == old(s).version,
        final(s).shelf() == prefiltered(old(s).shelf(), now),
        dropped == hard_drops(old(s).shelf(), now).len(),
{
    let drops = hard_drop_candidates(s, now);
    let ghost ps = pairs(drops@);
    let mut keys: Vec<String> = Vec::new();
    let mut k: usize = 0;
    while k < drops.len()
        invariant
            ps == pairs(drops@),
            k <= drops@.len(),
            keys@.len() == k,
            forall|j: int| 0 <= j < k ==> (#[trigger] keys@[j])@ == ps[j].0,
        decreases drops@.len() - k,
    {
        keys.push(drops[k].0.clone());
        k = k + 1;
    }
    assert(text::views(keys@) =~= firsts(ps));
    s.drop_all(&keys);
    let ghost kept = s.shelf();
    let mut i: usize = 0;
    while i < s.memories.len()
        invariant
            s.wf(),
            kept.keys.len() == kept.facts.len(),
            s.identities == old(s).identities,
            s.version == old(s).version,
            s.shelf().keys == kept.keys,
            s.shelf().facts.len() == kept.facts.len(),
            i <= kept.facts.len(),
            forall|j: int|
                0 <= j < i ==> #[trigger] s.shelf().facts[j] == (store::Fact {
                    confidence: boosted(kept.facts[j]),
                    ..kept.facts[j]
                }),
            forall|j: int|
                i <= j < kept.facts.len() ==> #[trigger] s.shelf().facts[j] == kept.facts[j],
        decreases kept.facts.len() - i,
    {
        let ghost before = s.shelf().facts;
        let mut m = s.memories.value_at(i).copy();
        assert(m@ == before[i as int]);
        m.confidence = corroboration_boost(&m);
        let ghost f = m@;
        s.memories.set_at(i, m);
        assert(s.shelf().facts =~= before.update(i as int, f));
        i = i + 1;
    }
    assert(s.shelf().facts =~= all_boosted(kept.facts));
    drops.len()
}

// ---------------------------------------------------------------------------
// What the model is asked
// ---------------------------------------------------------------------------

/// The scopes that are curated, one after the other.
pub fn curated_scopes() -> (r: Vec<&'static str>)
    ensures
        r@.len() == 3,
        r@[0]@ == "user"@,
        r@[1]@ == "lore"@,
        r@[2]@ == "pref"@,
{
    let mut tags: Vec<&'static str> = Vec::new();
    tags.push("user");
    tags.push("lore");
    tags.push("pref");
    tags
}

/// The lines of the facts of a scope, in the order of the shelf.
pub open spec fn scope_lines(s: store::Shelf, tag: Seq<char>) -> Seq<Seq<char>> {
    store::listed_lines(s.keys, s.facts, tag, None)
}

pub open spec fn system_text(tag: Seq<char>) -> Seq<char> {
    "You are curating the AI memory store for scope '"@ + tag
        + "'. Goals: merge duplicates, drop contradictions or hallucinations, refine with edit_memory. Priority: merge > drop weaker on contradiction > edit confidence_delta > drop_source > edit fact wording. Never change a fact's subject or core claim via edit — use merge or drop for that. Respond with tool calls only; stop when done."@
}

pub open spec fn request_text(tag: Seq<char>, lines: Seq<Seq<char>>) -> Seq<char> {
    "Current memories in scope "@ + tag + ":\n"@ + text::join(lines, "\n"@)
}

/// The messages that ask the model to curate a scope; `None` where it holds nothing.
pub fn scope_messages(s: &MemoryStore, tag: &str) -> (r: Option<Vec<Message>>)
    requires
        s.wf(),
    ensures
        match r {
            Some(v) => {
                &&& scope_lines(s.shelf(), tag@).len() > 0
                &&& llm::messages_of(v@) == seq![
                    llm::Said { role: "system"@, content: system_text(tag@) },
                    llm::Said {
                        role: "user"@,
                        content: request_text(tag@, scope_lines(s.shelf(), tag@)),
                    },
                ]
            },
            None => scope_lines(s.shelf(), tag@).len() == 0,
        },
{
    let lines = s.scope_lines(tag);
    assert(text::views(lines@).len() == lines@.len());
    if lines.len() == 0 {
        return None;
    }
    let mut system = "You are curating the AI memory store for scope '".to_owned();
    system.push_str(tag);
    system.push_str(
        "'. Goals: merge duplicates, drop contradictions or hallucinations, refine with edit_memory. Priority: merge > drop weaker on contradiction > edit confidence_delta > drop_source > edit fact wording. Never change a fact's subject or core claim via edit — use merge or drop for that. Respond with tool calls only; stop when done.",
    );
    let mut user = "Current memories in scope ".to_owned();
    user.push_str(tag);
    user.push_str(":\n");
    let listing = text::joined(&lines, "\n");
    user.push_str(listing.as_str());
    let mut out: Vec<Message> = Vec::new();
    out.push(Message::system(system));
    out.push(Message::user(user));
    assert(llm::messages_of(out@) =~= seq![
        llm::Said { role: "system"@, content: system_text(tag@) },
        llm::Said { role: "user"@, content: request_text(tag@, scope_lines(s.shelf(), tag@)) },
    ]);
    Some(out)
}

// ---------------------------------------------------------------------------
// What the model's calls do
// ---------------------------------------------------------------------------

/// In which group a call is carried out: drops, then merges, then edits, then the rest.
pub open spec fn priority(name: Seq<char>) -> int {
    if name == "drop_memory"@ {
        0
    } else if name == "merge_memories"@ {
        1
    } else if name == "edit_memory"@ {
        2
    } else {
        3
    }
}

fn priority_of(name: &str) -> (r: i64)
    ensures
        r == priority(name@),
{
    if text::same(name, "drop_memory") {
        0
    } else if text::same(name, "merge_memories") {
        1
    } else if text::same(name, "edit_memory") {
        2
    } else {
        3
    }
}

/// What each call is sorted by: its group, then its position.
pub open spec fn call_places(calls: Seq<llm::Call>) -> Seq<order::Place> {
    Seq::new(
        calls.len(),
        |i: int|
            order::Place { rank: priority(calls[i].name), key: Seq::empty(), index: i },
    )
}

/// The calls in the order in which they are carried out.
pub open spec fn in_sequence(calls: Seq<llm::Call>) -> Seq<llm::Call> {
    order::sorted(call_places(calls)).map_values(|p: order::Place| calls[p.index])
}

/// The positions at which the calls were asked for, in the order in which they are
/// carried out.
pub open spec fn positions(calls: Seq<llm::Call>) -> Seq<int> {
    order::sorted(call_places(calls)).map_values(|p: order::Place| p.index)
}

/// Drops come before merges, merges before edits, edits before everything else; within
/// a group the calls keep the order in which they were asked for.
pub proof fn law_calls_are_grouped(calls: Seq<llm::Call>, i: int, j: int)
    requires
        0 <= i < j < calls.len(),
    ensures
        in_sequence(calls).len() == calls.len(),
        priority(in_sequence(calls)[i].name) <= priority(in_sequence(calls)[j].name),
        in_sequence(calls)[i] == calls[positions(calls)[i]],
        in_sequence(calls)[j] == calls[positions(calls)[j]],
        priority(in_sequence(calls)[i].name) == priority(in_sequence(calls)[j].name)
            ==> positions(calls)[i] < positions(calls)[j],
{
    let ps = call_places(calls);
    order::lemma_sorted(ps);
    let s = order::sorted(ps);
    let r = order::in_order();
    assert(r(s[i], s[j]));
    lemma_call_place(calls, i);
    lemma_call_place(calls, j);
    lemma_call_places_differ(calls);
    assert(s[i] != s[j]);
}

/// No call is left out, and none is carried out twice.
pub proof fn law_no_call_is_lost(calls: Seq<llm::Call>)
    ensures
        in_sequence(calls).to_multiset() == calls.to_multiset(),
        positions(calls).no_duplicates(),
{
    let ps = call_places(calls);
    let s = order::sorted(ps);
    order::lemma_sorted(ps);
    order::lemma_map_multiset(s, ps, |p: order::Place| calls[p.index]);
    assert(ps.map_values(|p: order::Place| calls[p.index]) =~= calls);
    lemma_call_places_differ(calls);
    assert forall|i: int, j: int|
        0 <= i < positions(calls).len() && 0 <= j < positions(calls).len() && i
            != j implies positions(calls)[i] != positions(calls)[j] by {
        lemma_call_place(calls, i);
        lemma_call_place(calls, j);
        assert(s[i] != s[j]);
    }
}

proof fn lemma_call_places_differ(calls: Seq<llm::Call>)
    ensures
        order::sorted(call_places(calls)).no_duplicates(),
{
    let ps = call_places(calls);
    let s = order::sorted(ps);
    order::lemma_sorted(ps);
    assert(ps.no_duplicates()) by {
        assert forall|i: int, j: int|
            0 <= i < ps.len() && 0 <= j < ps.len() && i != j implies ps[i] != ps[j] by {
            assert(ps[i].index == i && ps[j].index == j);
        }
    }
    ps.lemma_multiset_has_no_duplicates();
    s.lemma_multiset_has_no_duplicates_conv();
}

proof fn lemma_call_place(calls: Seq<llm::Call>, i: int)
    requires
        0 <= i < calls.len(),
    ensures
        ({
            let s = order::sorted(call_places(calls));
            &&& s.len() == calls.len()
            &&& 0 <= s[i].index < calls.len()
            &&& s[i].rank == priority(calls[s[i].index].name)
            &&& s[i].key == Seq::<char>::empty()
        }),
{
    let ps = call_places(calls);
    order::lemma_sorted(ps);
    let s = order::sorted(ps);
    assert(s.contains(s[i]));
    assert(ps.contains(s[i]));
    let k = ps.index_of(s[i]);
    assert(ps[k] == s[i]);
}

/// How many calls of each kind went through.
#[derive(Debug, Clone, Copy, PartialEq, Eq, Structural)]
pub struct Tally {
    pub merged: u64,
    pub dropped: u64,
    pub edited: u64,
}

/// One more, up to the largest number.
pub open spec fn one_more(n: u64) -> u64 {
    if n == u64::MAX {
        n
    } else {
        (n + 1) as u64
    }
}

/// A tally after a call with a name was answered.
pub open spec fn tallied(t: Tally, name: Seq<char>, reply: Seq<char>) -> Tally {
    if name == "merge_memories"@ && text::has_prefix(reply, "Merged"@) {
        Tally { merged: one_more(t.merged), ..t }
    } else if name == "drop_memory"@ && text::has_prefix(reply, "Dropped"@) {
        Tally { dropped: one_more(t.dropped), ..t }
    } else if name == "edit_memory"@ && text::has_prefix(reply, "Edited"@) {
        Tally { edited: one_more(t.edited), ..t }
    } else {
        t
    }
}

fn add_one(n: u64) -> (r: u64)
    ensures
        r == one_more(n),
{
    if n == u64::MAX {
        n
    } else {
        n + 1
    }
}

fn tally(t: Tally, name: &str, reply: &str) -> (r: Tally)
    ensures
        r == tallied(t, name@, reply@),
{
    if text::same(name, "merge_memories") && text::starts_with(reply, "Merged") {
        Tally { merged: add_one(t.merged), dropped: t.dropped, edited: t.edited }
    } else if text::same(name, "drop_memory") && text::starts_with(reply, "Dropped") {
        Tally { merged: t.merged, dropped: add_one(t.dropped), edited: t.edited }
    } else if text::same(name, "edit_memory") && text::starts_with(reply, "Edited") {
        Tally { merged: t.merged, dropped: t.dropped, edited: add_one(t.edited) }
    } else {
        t
    }
}

/// A shelf, the results and the tally after some calls were carried out.
#[verifier::ext_equal]
pub ghost struct Curated {
    pub shelf: store::Shelf,
    pub results: Seq<llm::CallResult>,
    pub tally: Tally,
}

/// What carrying out calls one after the other comes to.
pub open spec fn curated(
    shelf: store::Shelf,
    calls: Seq<llm::Call>,
    tally: Tally,
    now: Timestamp,
) -> Curated
    decreases calls.len(),
{
    if calls.len() == 0 {
        Curated { shelf, results: Seq::empty(), tally }
    } else {
        let before = curated(shelf, calls.drop_last(), tally, now);
        let call = calls.last();
        let a = store::consolidator_answer(before.shelf, call, now);
        Curated {
            shelf: a.shelf,
            results: before.results.push(
                llm::CallResult { id: call.id, name: call.name, content: a.reply },
            ),
            tally: tallied(before.tally, call.name, a.reply),
        }
    }
}

fn sequence_calls(calls: &Vec<ToolCall>) -> (r: Vec<usize>)
    ensures
        r@.len() == calls@.len(),
        forall|i: int|
            0 <= i < r@.len() ==> (#[trigger] r@[i]) < calls@.len() && in_sequence(
                llm::calls_of(calls@),
            )[i] == calls@[r@[i] as int]@,
{
    let ghost cs = llm::calls_of(calls@);
    let ghost ps = call_places(cs);
    let mut items: Vec<Item> = Vec::new();
    let mut i: usize = 0;
    while i < calls.len()
        invariant
            cs == llm::calls_of(calls@),
            i <= calls@.len(),
            items@.len() == i,
            forall|j: int| 0 <= j < i ==> (#[trigger] items@[j])@ == (order::Place {
                rank: priority(cs[j].name),
                key: Seq::empty(),
                index: j,
            }),
        decreases calls@.len() - i,
    {
        items.push(Item { rank: priority_of(calls[i].name.as_str()), key: String::new(), index: i });
        i = i + 1;
    }
    assert(order::places(items@) =~= ps);
    let sorted = order::sort(items);
    proof {
        order::lemma_sorted(ps);
        assert(order::places(sorted@).len() == sorted@.len());
    }
    let mut out: Vec<usize> = Vec::new();
    let mut k: usize = 0;
    while k < sorted.len()
        invariant
            cs == llm::calls_of(calls@),
            order::places(sorted@) == order::sorted(call_places(cs)),
            sorted@.len() == cs.len(),
            k <= sorted@.len(),
            out@.len() == k,
            forall|j: int|
                0 <= j < k ==> (#[trigger] out@[j]) < calls@.len() && in_sequence(cs)[j]
                    == calls@[out@[j] as int]@,
        decreases sorted@.len() - k,
    {
        proof {
            lemma_call_place(cs, k as int);
            assert(order::places(sorted@)[k as int] == sorted@[k as int]@);
        }
        out.push(sorted[k].index);
        k = k + 1;
    }
    out
}

/// Carries out the calls of a model, drops first, then merges, then edits. Gives the
/// results, and adds to the tally what went through.
pub fn apply_calls(
    s: &mut MemoryStore,
    calls: &Vec<ToolCall>,
    t: &mut Tally,
    now: Timestamp,
) -> (r: Vec<ToolResultMessage>)
    requires
        old(s).wf(),
    ensures
        final(s).wf(),
        final(s).identities == old(s).identities,
        final(s).version == old(s).version,
        ({
            let c = curated(
                old(s).shelf(),
                in_sequence(llm::calls_of(calls@)),
                *old(t),
                now,
            );
            &&& final(s).shelf() == c.shelf
            &&& llm::results_of(r@) == c.results
            &&& *final(t) == c.tally
        }),
{
    let ghost seq = in_sequence(llm::calls_of(calls@));
    let positions = sequence_calls(calls);
    proof {
        order::lemma_sorted(call_places(llm::calls_of(calls@)));
    }
    let mut results: Vec<ToolResultMessage> = Vec::new();
    let mut i: usize = 0;
    proof {
        assert(seq.take(0) =~= Seq::<llm::Call>::empty());
        assert(llm::results_of(results@) =~= Seq::<llm::CallResult>::empty());
    }
    while i < positions.len()
        invariant
            s.wf(),
            s.identities == old(s).identities,
            s.version == old(s).version,
            seq.len() == positions@.len(),
            i <= positions@.len(),
            forall|j: int|
                0 <= j < positions@.len() ==> (#[trigger] positions@[j]) < calls@.len() && seq[j]
                    == calls@[positions@[j] as int]@,
            s.shelf() == curated(old(s).shelf(), seq.take(i as int), *old(t), now).shelf,
            llm::results_of(results@) == curated(
                old(s).shelf(),
                seq.take(i as int),
                *old(t),
                now,
            ).results,
            *t == curated(old(s).shelf(), seq.take(i as int), *old(t), now).tally,
        decreases positions@.len() - i,
    {
        let ghost before = llm::results_of(results@);
        proof {
            assert(seq.take(i + 1).drop_last() =~= seq.take(i as int));
            assert(seq.take(i + 1).last() == seq[i as int]);
        }
        let call = &calls[positions[i]];
        let reply = s.execute_consolidator_tool(call, now);
        *t = tally(*t, call.name.as_str(), reply.as_str());
        let message = ToolResultMessage::answer(call, reply);
        let ghost m = message@;
        results.push(message);
        assert(llm::results_of(results@) =~= before.push(m));
        i = i + 1;
    }
    assert(seq.take(i as int) =~= seq);
    results
}

/// The curation of one scope: the rounds so far, and whether it has ended.
#[derive(Debug, Clone)]
pub struct ScopePass {
    pub prior_rounds: Vec<ToolCallRound>,
    pub done: bool,
}

impl ScopePass {
    /// Whether another round may follow.
    pub open spec fn wf(&self) -> bool {
        &&& self.prior_rounds@.len() <= MAX_ROUNDS
        &&& !self.done ==> self.prior_rounds@.len() < MAX_ROUNDS
    }

    pub fn new() -> (r: ScopePass)
        ensures
            r.wf(),
            !r.done,
            r.prior_rounds@.len() == 0,
    {
        ScopePass { prior_rounds: Vec::new(), done: false }
    }

    /// Takes the model's answer. A plain message ends the pass; calls are carried out and
    /// make a round. The pass also ends with the last round that a scope is given.
    pub fn on_response(
        &mut self,
        s: &mut MemoryStore,
        response: ToolChatCompletionResponse,
        t: &mut Tally,
        now: Timestamp,
    )
        requires
            old(self).wf(),
            !old(self).done,
            old(s).wf(),
        ensures
            final(self).wf(),
            final(s).wf(),
            final(s).identities == old(s).identities,
            final(s).version == old(s).version,
            match response {
                ToolChatCompletionResponse::Message(_) => {
                    &&& final(self).done
                    &&& final(self).prior_rounds == old(self).prior_rounds
                    &&& final(s).shelf() == old(s).shelf()
                    &&& *final(t) == *old(t)
                },
                ToolChatCompletionResponse::ToolCalls { calls, reasoning_content } => {
                    let c = curated(
                        old(s).shelf(),
                        in_sequence(llm::calls_of(calls@)),
                        *old(t),
                        now,
                    );
                    &&& final(s).shelf() == c.shelf
                    &&& *final(t) == c.tally
                    &&& llm::rounds_of(final(self).prior_rounds@) == llm::rounds_of(
                        old(self).prior_rounds@,
                    ).push(
                        llm::Round {
                            calls: llm::calls_of(calls@),
                            results: c.results,
                            reasoning: text::opt_view(reasoning_content),
                        },
                    )
                    &&& final(self).done == (final(self).prior_rounds@.len() == MAX_ROUNDS)
                },
            },
    {
        match response {
            ToolChatCompletionResponse::Message(_) => {
                self.done = true;
            },
            ToolChatCompletionResponse::ToolCalls { calls, reasoning_content } => {
                let results = apply_calls(s, &calls, t, now);
                let round = ToolCallRound { calls, results, reasoning_content };
                let ghost before = llm::rounds_of(self.prior_rounds@);
                let ghost r = round@;
                self.prior_rounds.push(round);
                assert(llm::rounds_of(self.prior_rounds@) =~= before.push(r));
                if self.prior_rounds.len() >= MAX_ROUNDS {
                    self.done = true;
                }
            },
        }
    }
}


/// A fact is dropped without asking just where it is less sure than 10 and was not accessed
/// for more than 60 days.
pub proof fn law_weak_and_stale_facts_are_dropped(
    s: store::Shelf,
    key: Seq<char>,
    f: store::Fact,
    now: Timestamp,
)
    ensures
        is_hard_drop(f, now) <==> f.confidence < 10 && now@ - f.last_accessed@
            > 5_184_000_000_000_000,
        ({
            let t = store::Shelf { keys: s.keys.push(key), facts: s.facts.push(f) };
            &&& is_hard_drop(f, now) ==> hard_drops(t, now) == hard_drops(s, now).push(
                (key, drop_reason(f, now)),
            )
            &&& !is_hard_drop(f, now) ==> hard_drops(t, now) == hard_drops(s, now)
        }),
        text::has(drop_reason(f, now), text::decimal(f.confidence as nat)),
{
    broadcast use text::group_parts;

    let t = store::Shelf { keys: s.keys.push(key), facts: s.facts.push(f) };
    assert(t.keys.drop_last() =~= s.keys);
    assert(t.facts.drop_last() =~= s.facts);
}

/// Each source beyond the first makes a fact surer by five, up to 100; the stand-ins for
/// unknown sources do not count.
pub proof fn law_sources_make_facts_surer(f: store::Fact, source: Seq<char>)
    ensures
        ({
            let n = store::count_real(f.sources);
            &&& n <= 1 && f.confidence <= 100 ==> boosted(f) == f.confidence
            &&& n > 1 && f.confidence + 5 * (n - 1) <= 100 ==> boosted(f) == f.confidence + 5 * (n
                - 1)
            &&& n > 1 && f.confidence + 5 * (n - 1) > 100 ==> boosted(f) == 100
        }),
        source != "legacy"@ && source != "__identity__"@ ==> store::count_real(
            f.sources.push(source),
        ) == store::count_real(f.sources) + 1,
        source == "legacy"@ || source == "__identity__"@ ==> store::count_real(
            f.sources.push(source),
        ) == store::count_real(f.sources),
        store::count_real(Seq::empty()) == 0,
{
    assert(f.sources.push(source).drop_last() =~= f.sources);
}

proof fn lemma_hard_drop_keys(s: store::Shelf, now: Timestamp, key: Seq<char>)
    requires
        s.wf(),
    ensures
        firsts(hard_drops(s, now)).contains(key) <==> s.has(key) && is_hard_drop(s.get(key), now),
    decreases s.facts.len(),
{
    let all = firsts(hard_drops(s, now));
    if s.facts.len() > 0 {
        let t = store::Shelf { keys: s.keys.drop_last(), facts: s.facts.drop_last() };
        assert(t.wf());
        lemma_hard_drop_keys(t, now, key);
        let rest = firsts(hard_drops(t, now));
        let n = s.keys.len() - 1;
        crate::table::lemma_index_of(s.keys, n);
        if t.has(key) {
            let i = t.keys.index_of(key);
            assert(s.keys[i] == key);
            crate::table::lemma_index_of(s.keys, i);
            assert(t.get(key) == s.get(key));
        }
        if s.has(key) && key != s.keys[n] {
            let i = s.keys.index_of(key);
            assert(t.keys[i] == key);
        }
        if rest.contains(key) {
            let i = rest.index_of(key);
            assert(all[i] == key);
        }
        if all.contains(key) && !rest.contains(key) {
            let i = all.index_of(key);
            if i < rest.len() {
                assert(rest[i] == key);
            }
        }
        if key == s.keys[n] && is_hard_drop(s.facts[n], now) {
            assert(all[all.len() - 1] == key);
        }
    }
}

/// Before the model is asked, just the weak and stale facts go; every other fact stays as it
/// is, but for the confidence that its sources lend it.
pub proof fn law_prefilter_drops_only_the_weak(s: store::Shelf, now: Timestamp, key: Seq<char>)
    requires
        s.wf(),
    ensures
        prefiltered(s, now).has(key) <==> s.has(key) && !is_hard_drop(s.get(key), now),
        prefiltered(s, now).has(key) ==> {
            let f = s.get(key);
            let g = prefiltered(s, now).get(key);
            &&& g.fact == f.fact && g.scope == f.scope && g.sources == f.sources
            &&& g.created_at == f.created_at && g.last_accessed == f.last_accessed
                && g.access_count == f.access_count
            &&& g.confidence == boosted(f)
        },
{
    let gone = firsts(hard_drops(s, now));
    lemma_hard_drop_keys(s, now, key);
    store::lemma_without_all(s, gone, key);
    let kept = store::without_all(s, gone);
    if kept.has(key) {
        let i = kept.keys.index_of(key);
        assert(kept.facts[i] == s.get(key));
    }
}

/// The model is told which scope it curates and each fact in it.
pub proof fn law_scope_is_told(tag: Seq<char>, lines: Seq<Seq<char>>, i: int)
    requires
        0 <= i < lines.len(),
    ensures
        text::has(system_text(tag), tag),
        text::has(request_text(tag, lines), tag),
        text::has(request_text(tag, lines), lines[i]),
{
    broadcast use text::group_parts;

    text::law_joined_holds_each(lines, "\n"@, i);
}

/// Drops are carried out first, then merges, then edits, then all else.
pub proof fn law_order_of_calls(name: Seq<char>)
    ensures
        priority("drop_memory"@) < priority("merge_memories"@) < priority("edit_memory"@),
        name != "drop_memory"@ && name != "merge_memories"@ && name != "edit_memory"@ ==> priority(
            "edit_memory"@,
        ) < priority(name),
{
    reveal_strlit("drop_memory");
    reveal_strlit("merge_memories");
    reveal_strlit("edit_memory");
    assert("drop_memory"@[0] == 'd' && "merge_memories"@[0] == 'm' && "edit_memory"@[0] == 'e');
}

/// Just the calls that went through are counted, each under what it did.
pub proof fn law_what_went_through_is_counted(t: Tally, name: Seq<char>, reply: Seq<char>)
    requires
        t.merged < u64::MAX,
        t.dropped < u64::MAX,
        t.edited < u64::MAX,
    ensures
        ({
            let u = tallied(t, name, reply);
            let merged = name == "merge_memories"@ && text::has_prefix(reply, "Merged"@);
            let dropped = name == "drop_memory"@ && text::has_prefix(reply, "Dropped"@);
            let edited = name == "edit_memory"@ && text::has_prefix(reply, "Edited"@);
            &&& u.merged == t.merged + if merged {
                1int
            } else {
                0
            }
            &&& u.dropped == t.dropped + if dropped {
                1int
            } else {
                0
            }
            &&& u.edited == t.edited + if edited {
                1int
            } else {
                0
            }
        }),
{
    law_order_of_calls(name);
}

/// Calls are carried out one after the other, each on what the one before it left, and each
/// is answered under its id.
pub proof fn law_calls_follow_each_other(
    shelf: store::Shelf,
    calls: Seq<llm::Call>,
    call: llm::Call,
    tally: Tally,
    now: Timestamp,
)
    ensures
        ({
            let before = curated(shelf, calls, tally, now);
            let after = curated(shelf, calls.push(call), tally, now);
            let a = store::consolidator_answer(before.shelf, call, now);
            &&& after.shelf == a.shelf
            &&& after.results.len() == before.results.len() + 1
            &&& after.results.last().id == call.id && after.results.last().name == call.name
                && after.results.last().content == a.reply
            &&& after.results.drop_last() == before.results
            &&& after.tally == tallied(before.tally, call.name, a.reply)
        }),
        curated(shelf, Seq::empty(), tally, now).shelf == shelf,
        curated(shelf, Seq::empty(), tally, now).tally == tally,
{
    assert(calls.push(call).drop_last() =~= calls);
    let before = curated(shelf, calls, tally, now);
    let after = curated(shelf, calls.push(call), tally, now);
    assert(after.results.drop_last() =~= before.results);
}

/// A scope is given five rounds, and no more.
pub proof fn law_rounds_are_limited(p: ScopePass)
    requires
        p.wf(),
    ensures
        p.prior_rounds@.len() <= 5,
        p.prior_rounds@.len() == 5 ==> p.done,
{
}

} // verus!
