//! The section of a prompt that tells a language model what is remembered.
use vstd::prelude::*;
use crate::memory::scope;
use crate::memory::store;
use crate::memory::store::{Caps, Identity, Memory, MemoryStore};
use crate::order;
use crate::order::Item;
use crate::table;
use crate::table::Table;
use crate::text;

verus! {

/// What each fact of a scope is sorted by: confidence, highest first, then key.
pub open spec fn places_in(s: store::Shelf, tag: Seq<char>) -> Seq<order::Place>
    decreases s.facts.len(),
{
    if s.facts.len() == 0 {
        Seq::empty()
    } else {
        let rest = places_in(
            store::Shelf { keys: s.keys.drop_last(), facts: s.facts.drop_last() },
            tag,
        );
        if s.facts.last().scope.tag() == tag {
            rest.push(
                order::Place {
                    rank: -(s.facts.last().confidence as int),
                    key: s.keys.last(),
                    index: 0,
                },
            )
        } else {
            rest
        }
    }
}

/// The first texts of a list, as many as there are up to a limit.
pub open spec fn first(list: Seq<Seq<char>>, n: nat) -> Seq<Seq<char>> {
    if n < list.len() {
        list.take(n as int)
    } else {
        list
    }
}

/// The keys of the most confident facts of a scope, up to a limit.
pub open spec fn picked(s: store::Shelf, tag: Seq<char>, cap: nat) -> Seq<Seq<char>> {
    first(order::sorted(places_in(s, tag)).map_values(|p: order::Place| p.key), cap)
}

pub open spec fn fact_line(f: store::Fact) -> Seq<char> {
    "\n- "@ + f.fact + " (conf "@ + text::decimal(f.confidence as nat) + ")"@
}

/// The lines of the facts under some keys.
pub open spec fn lines(m: Map<Seq<char>, store::Fact>, keys: Seq<Seq<char>>) -> Seq<char>
    decreases keys.len(),
{
    if keys.len() == 0 {
        Seq::empty()
    } else {
        lines(m, keys.drop_last()) + fact_line(m[keys.last()])
    }
}

/// Whom a fact is about; nothing for a fact about the channel.
pub open spec fn subject_of(f: store::Fact) -> Seq<char> {
    match f.scope.subject() {
        Some(id) => id,
        None => Seq::empty(),
    }
}

/// The subjects of the facts under some keys, each once, in order.
pub open spec fn subjects(m: Map<Seq<char>, store::Fact>, keys: Seq<Seq<char>>) -> Seq<Seq<char>>
    decreases keys.len(),
{
    if keys.len() == 0 {
        Seq::empty()
    } else {
        let rest = subjects(m, keys.drop_last());
        let id = subject_of(m[keys.last()]);
        if rest.contains(id) {
            rest
        } else {
            rest.push(id)
        }
    }
}

/// Those of the keys whose facts are about a subject.
pub open spec fn about(
    m: Map<Seq<char>, store::Fact>,
    keys: Seq<Seq<char>>,
    id: Seq<char>,
) -> Seq<Seq<char>>
    decreases keys.len(),
{
    if keys.len() == 0 {
        Seq::empty()
    } else {
        let rest = about(m, keys.drop_last(), id);
        if subject_of(m[keys.last()]) == id {
            rest.push(keys.last())
        } else {
            rest
        }
    }
}

/// The name that a user is shown under.
pub open spec fn name_of(names: Map<Seq<char>, Seq<char>>, id: Seq<char>) -> Seq<char> {
    if names.contains_key(id) {
        names[id]
    } else {
        "user "@ + id
    }
}

/// User ids in the order of the names that they are shown under; the same names in the
/// order of the ids.
pub open spec fn by_name(names: Map<Seq<char>, Seq<char>>, ids: Seq<Seq<char>>) -> Seq<Seq<char>> {
    let sorted = store::sorted_texts(ids);
    order::sorted(
        Seq::new(
            sorted.len(),
            |i: int| order::Place { rank: 0, key: name_of(names, sorted[i]), index: i },
        ),
    ).map_values(|p: order::Place| sorted[p.index])
}

/// How many of the users are shown under a name.
pub open spec fn count_named(
    names: Map<Seq<char>, Seq<char>>,
    ids: Seq<Seq<char>>,
    name: Seq<char>,
) -> nat
    decreases ids.len(),
{
    if ids.len() == 0 {
        0
    } else {
        count_named(names, ids.drop_last(), name) + if name_of(names, ids.last()) == name {
            1nat
        } else {
            0nat
        }
    }
}

/// The heading over the facts or the preferences of a user. Users who share a name are
/// told apart by their ids.
pub open spec fn heading(pref: bool, name: Seq<char>, shared: bool, id: Seq<char>) -> Seq<char> {
    let title = if pref {
        "\n### "@ + name + "'s preferences"@
    } else {
        "\n### About "@ + name
    };
    if shared {
        title + " (user "@ + id + ")"@
    } else {
        title
    }
}

/// The headings and lines of some users, of all those whose facts are shown.
pub open spec fn user_parts(
    m: Map<Seq<char>, store::Fact>,
    names: Map<Seq<char>, Seq<char>>,
    keys: Seq<Seq<char>>,
    pref: bool,
    all: Seq<Seq<char>>,
    ids: Seq<Seq<char>>,
) -> Seq<char>
    decreases ids.len(),
{
    if ids.len() == 0 {
        Seq::empty()
    } else {
        let id = ids.last();
        let name = name_of(names, id);
        user_parts(m, names, keys, pref, all, ids.drop_last()) + heading(
            pref,
            name,
            count_named(names, all, name) > 1,
            id,
        ) + lines(m, about(m, keys, id))
    }
}

/// The section on the users: the most confident facts of the scope, grouped by user.
pub open spec fn section(
    s: store::Shelf,
    names: Map<Seq<char>, Seq<char>>,
    pref: bool,
    cap: nat,
) -> Seq<char> {
    let keys = picked(
        s,
        if pref {
            "pref"@
        } else {
            "user"@
        },
        cap,
    );
    let ids = subjects(s.map(), keys);
    user_parts(s.map(), names, keys, pref, ids, by_name(names, ids))
}

/// The section on the channel.
pub open spec fn lore_section(s: store::Shelf, cap: nat) -> Seq<char> {
    if places_in(s, "lore"@).len() == 0 {
        Seq::empty()
    } else {
        "\n### Channel lore"@ + lines(s.map(), picked(s, "lore"@, cap))
    }
}

/// What a prompt says about the memories; nothing where there are none.
pub open spec fn prompt(
    s: store::Shelf,
    names: Map<Seq<char>, Seq<char>>,
    caps: Caps,
) -> Option<Seq<char>> {
    if s.keys.len() == 0 {
        None
    } else {
        Some(
            "\n\n## Known facts"@ + lore_section(s, caps.max_lore as nat) + section(
                s,
                names,
                false,
                caps.max_user as nat,
            ) + section(s, names, true, caps.max_pref as nat),
        )
    }
}

// ---------------------------------------------------------------------------
// Facts about the pieces
// ---------------------------------------------------------------------------

proof fn lemma_places_in(s: store::Shelf, tag: Seq<char>)
    requires
        s.wf(),
    ensures
        forall|p: order::Place|
            #[trigger]
            places_in(s, tag).contains(p) <==> s.has(p.key) && s.get(p.key).scope.tag() == tag
                && p.rank == -(s.get(p.key).confidence as int) && p.index == 0,
        places_in(s, tag).no_duplicates(),
    decreases s.facts.len(),
{
    if s.facts.len() > 0 {
        let t = store::Shelf { keys: s.keys.drop_last(), facts: s.facts.drop_last() };
        assert(t.wf());
        lemma_places_in(t, tag);
        let n = s.keys.len() - 1;
        let k = s.keys[n];
        table::lemma_index_of(s.keys, n);
        assert forall|q: Seq<char>| q != k implies (#[trigger] s.has(q) <==> t.has(q)) && (s.has(q)
            ==> s.get(q) == t.get(q)) by {
            if s.has(q) {
                let i = s.keys.index_of(q);
                assert(t.keys[i] == q);
                table::lemma_index_of(t.keys, i);
            }
            if t.has(q) {
                let i = t.keys.index_of(q);
                assert(s.keys[i] == q);
                table::lemma_index_of(s.keys, i);
            }
        }
        assert(!t.has(k)) by {
            if t.has(k) {
                let i = t.keys.index_of(k);
                assert(s.keys[i] == k && s.keys[n] == k);
            }
        }
        let rest = places_in(t, tag);
        let all = places_in(s, tag);
        assert forall|p: order::Place| #[trigger]
            all.contains(p) <==> s.has(p.key) && s.get(p.key).scope.tag() == tag && p.rank == -(
            s.get(p.key).confidence as int) && p.index == 0 by {
            let is_new = s.facts.last().scope.tag() == tag;
            let new = order::Place {
                rank: -(s.facts.last().confidence as int),
                key: s.keys.last(),
                index: 0,
            };
            if is_new {
                assert(all[all.len() - 1] == new);
                if all.contains(p) && p != new {
                    let i = all.index_of(p);
                    assert(rest[i] == p);
                }
                if rest.contains(p) {
                    let i = rest.index_of(p);
                    assert(all[i] == p);
                }
            }
            if p.key == k {
                assert(!rest.contains(p));
            }
        }
        if s.facts.last().scope.tag() == tag {
            let new = all.last();
            assert(!rest.contains(new));
            assert(all.no_duplicates());
        }
    }
}

/// Sequences without duplicates that hold the same places sort to the same sequence.
proof fn lemma_same_sorted(a: Seq<order::Place>, b: Seq<order::Place>)
    requires
        a.no_duplicates(),
        b.no_duplicates(),
        forall|p: order::Place| a.contains(p) <==> b.contains(p),
    ensures
        order::sorted(a) == order::sorted(b),
{
    a.lemma_multiset_has_no_duplicates();
    b.lemma_multiset_has_no_duplicates();
    assert(a.to_multiset() =~= b.to_multiset()) by {
        assert forall|p: order::Place| a.to_multiset().count(p) == b.to_multiset().count(p) by {
            vstd::seq_lib::to_multiset_contains(a, p);
            vstd::seq_lib::to_multiset_contains(b, p);
        }
    }
    order::lemma_sorted(b);
    order::lemma_sorted_is(a, order::sorted(b));
}

/// Whether two shelves hold the same facts, whatever their order and their times.
pub open spec fn same_facts(a: store::Shelf, b: store::Shelf) -> bool {
    &&& a.wf() && b.wf()
    &&& forall|k: Seq<char>| #[trigger] a.has(k) <==> b.has(k)
    &&& forall|k: Seq<char>|
        a.has(k) ==> {
            &&& #[trigger] a.get(k).fact == b.get(k).fact
            &&& a.get(k).scope == b.get(k).scope
            &&& a.get(k).confidence == b.get(k).confidence
        }
}

proof fn lemma_same_places(a: store::Shelf, b: store::Shelf, tag: Seq<char>)
    requires
        same_facts(a, b),
    ensures
        order::sorted(places_in(a, tag)) == order::sorted(places_in(b, tag)),
        places_in(a, tag).len() == places_in(b, tag).len(),
{
    lemma_places_in(a, tag);
    lemma_places_in(b, tag);
    assert forall|p: order::Place|
        places_in(a, tag).contains(p) <==> places_in(b, tag).contains(p) by {
        assert(a.has(p.key) <==> b.has(p.key));
        if a.has(p.key) {
            assert(a.get(p.key).fact == b.get(p.key).fact);
        }
    }
    lemma_same_sorted(places_in(a, tag), places_in(b, tag));
    order::lemma_sorted(places_in(a, tag));
    order::lemma_sorted(places_in(b, tag));
}

proof fn lemma_picked_are_facts(s: store::Shelf, tag: Seq<char>, cap: nat)
    requires
        s.wf(),
    ensures
        forall|i: int|
            0 <= i < picked(s, tag, cap).len() ==> s.has(#[trigger] picked(s, tag, cap)[i])
                && s.get(picked(s, tag, cap)[i]).scope.tag() == tag,
        picked(s, tag, cap).len() <= cap,
{
    lemma_places_in(s, tag);
    let sorted = order::sorted(places_in(s, tag));
    order::lemma_sorted(places_in(s, tag));
    assert forall|i: int| 0 <= i < picked(s, tag, cap).len() implies s.has(
        #[trigger] picked(s, tag, cap)[i],
    ) && s.get(picked(s, tag, cap)[i]).scope.tag() == tag by {
        assert(sorted.contains(sorted[i]));
        assert(places_in(s, tag).contains(sorted[i]));
    }
}

proof fn lemma_same_lines(a: store::Shelf, b: store::Shelf, keys: Seq<Seq<char>>)
    requires
        same_facts(a, b),
        forall|i: int| 0 <= i < keys.len() ==> a.has(#[trigger] keys[i]),
    ensures
        lines(a.map(), keys) == lines(b.map(), keys),
    decreases keys.len(),
{
    if keys.len() > 0 {
        lemma_same_lines(a, b, keys.drop_last());
        let k = keys[keys.len() - 1];
        assert(a.get(k).fact == b.get(k).fact);
    }
}

proof fn lemma_same_groups(a: store::Shelf, b: store::Shelf, keys: Seq<Seq<char>>, id: Seq<char>)
    requires
        same_facts(a, b),
        forall|i: int| 0 <= i < keys.len() ==> a.has(#[trigger] keys[i]),
    ensures
        subjects(a.map(), keys) == subjects(b.map(), keys),
        about(a.map(), keys, id) == about(b.map(), keys, id),
        forall|i: int|
            0 <= i < about(a.map(), keys, id).len() ==> a.has(
                #[trigger] about(a.map(), keys, id)[i],
            ),
    decreases keys.len(),
{
    if keys.len() > 0 {
        lemma_same_groups(a, b, keys.drop_last(), id);
        let k = keys[keys.len() - 1];
        assert(a.get(k).fact == b.get(k).fact);
    }
}

proof fn lemma_same_parts(
    a: store::Shelf,
    b: store::Shelf,
    names: Map<Seq<char>, Seq<char>>,
    keys: Seq<Seq<char>>,
    pref: bool,
    all: Seq<Seq<char>>,
    ids: Seq<Seq<char>>,
)
    requires
        same_facts(a, b),
        forall|i: int| 0 <= i < keys.len() ==> a.has(#[trigger] keys[i]),
    ensures
        user_parts(a.map(), names, keys, pref, all, ids) == user_parts(
            b.map(),
            names,
            keys,
            pref,
            all,
            ids,
        ),
    decreases ids.len(),
{
    if ids.len() > 0 {
        lemma_same_parts(a, b, names, keys, pref, all, ids.drop_last());
        lemma_same_groups(a, b, keys, ids.last());
        lemma_same_lines(a, b, about(a.map(), keys, ids.last()));
    }
}

proof fn lemma_same_section(
    a: store::Shelf,
    b: store::Shelf,
    names: Map<Seq<char>, Seq<char>>,
    pref: bool,
    cap: nat,
)
    requires
        same_facts(a, b),
    ensures
        section(a, names, pref, cap) == section(b, names, pref, cap),
{
    let tag = if pref {
        "pref"@
    } else {
        "user"@
    };
    lemma_same_places(a, b, tag);
    lemma_picked_are_facts(a, tag, cap);
    let keys = picked(a, tag, cap);
    lemma_same_groups(a, b, keys, Seq::empty());
    let ids = subjects(a.map(), keys);
    lemma_same_parts(a, b, names, keys, pref, ids, by_name(names, ids));
}

/// The prompt is the same for stores that hold the same facts, whatever the order in
/// which they were stored and whenever they were created, updated or read.
pub proof fn law_prompt_depends_on_facts_alone(
    a: store::Shelf,
    b: store::Shelf,
    names: Map<Seq<char>, Seq<char>>,
    caps: Caps,
)
    requires
        same_facts(a, b),
    ensures
        prompt(a, names, caps) == prompt(b, names, caps),
{
    if a.keys.len() > 0 {
        assert(a.has(a.keys[0]));
        assert(b.has(a.keys[0]));
    }
    if b.keys.len() > 0 {
        assert(b.has(b.keys[0]));
        assert(a.has(b.keys[0]));
    }
    lemma_same_places(a, b, "lore"@);
    lemma_picked_are_facts(a, "lore"@, caps.max_lore as nat);
    lemma_same_lines(a, b, picked(a, "lore"@, caps.max_lore as nat));
    lemma_same_section(a, b, names, false, caps.max_user as nat);
    lemma_same_section(a, b, names, true, caps.max_pref as nat);
}

/// No scope takes more lines of the prompt than its limit, and each line is a fact of
/// the scope.
pub proof fn law_prompt_keeps_caps(s: store::Shelf, tag: Seq<char>, cap: nat)
    requires
        s.wf(),
    ensures
        picked(s, tag, cap).len() <= cap,
        forall|i: int|
            0 <= i < picked(s, tag, cap).len() ==> s.has(#[trigger] picked(s, tag, cap)[i])
                && s.get(picked(s, tag, cap)[i]).scope.tag() == tag,
{
    lemma_picked_are_facts(s, tag, cap);
}

// ---------------------------------------------------------------------------
// Rendering
// ---------------------------------------------------------------------------

/// The names that identities stand for.
pub open spec fn usernames(t: Table<Identity>) -> Map<Seq<char>, Seq<char>> {
    t@.map_values(|i: Identity| i.username@)
}

fn keys_of_items(items: &Vec<Item>, n: usize) -> (r: Vec<String>)
    ensures
        text::views(r@) == first(
            order::places(items@).map_values(|p: order::Place| p.key),
            n as nat,
        ),
{
    let mut out: Vec<String> = Vec::new();
    let mut i: usize = 0;
    while i < items.len() && i < n
        invariant
            i <= items@.len(),
            i <= n,
            out@.len() == i,
            forall|j: int| 0 <= j < i ==> (#[trigger] out@[j])@ == items@[j].key@,
        decreases items@.len() - i,
    {
        out.push(items[i].key.clone());
        i = i + 1;
    }
    assert(text::views(out@) =~= first(
        order::places(items@).map_values(|p: order::Place| p.key),
        n as nat,
    ));
    out
}

impl MemoryStore {
    /// The facts of a scope, in order of confidence and key.
    fn items_in(&self, tag: &str) -> (r: Vec<Item>)
        requires
            self.wf(),
        ensures
            order::places(r@) == places_in(self.shelf(), tag@),
    {
        let ghost s = self.shelf();
        let mut items: Vec<Item> = Vec::new();
        let mut i: usize = 0;
        proof {
            assert(order::places(items@) =~= Seq::<order::Place>::empty());
            assert(s.facts.take(0) =~= Seq::<store::Fact>::empty());
        }
        while i < self.memories.len()
            invariant
                self.wf(),
                s == self.shelf(),
                i <= s.facts.len(),
                order::places(items@) == places_in(
                    store::Shelf { keys: s.keys.take(i as int), facts: s.facts.take(i as int) },
                    tag@,
                ),
            decreases s.facts.len() - i,
        {
            let ghost before = order::places(items@);
            proof {
                assert(s.facts.take(i + 1).drop_last() =~= s.facts.take(i as int));
                assert(s.keys.take(i + 1).drop_last() =~= s.keys.take(i as int));
            }
            let m = self.memories.value_at(i);
            assert(m@ == s.facts[i as int]);
            if text::same(m.scope.tag(), tag) {
                let item = Item {
                    rank: -(m.confidence as i64),
                    key: self.memories.key_at(i).to_owned(),
                    index: 0,
                };
                let ghost p = item@;
                items.push(item);
                assert(order::places(items@) =~= before.push(p));
            }
            i = i + 1;
        }
        proof {
            assert(s.facts.take(i as int) =~= s.facts);
            assert(s.keys.take(i as int) =~= s.keys);
        }
        items
    }

    /// The keys of the most confident facts of a scope, up to a limit.
    fn pick(&self, tag: &str, cap: usize) -> (r: Vec<String>)
        requires
            self.wf(),
        ensures
            text::views(r@) == picked(self.shelf(), tag@, cap as nat),
    {
        let items = self.items_in(tag);
        let sorted = order::sort(items);
        keys_of_items(&sorted, cap)
    }

    /// Appends the lines of the facts under some keys, or only of those about a subject.
    fn push_lines(&self, keys: &Vec<String>, id: Option<&str>, out: &mut String)
        requires
            self.wf(),
            forall|i: int| 0 <= i < keys@.len() ==> self.shelf().has(#[trigger] keys@[i]@),
        ensures
            final(out)@ == old(out)@ + lines(
                self.shelf().map(),
                match id {
                    Some(s) => about(self.shelf().map(), text::views(keys@), s@),
                    None => text::views(keys@),
                },
            ),
    {
        let ghost m = self.shelf().map();
        let ghost ks = text::views(keys@);
        let ghost start = out@;
        let mut i: usize = 0;
        proof {
            assert(ks.take(0) =~= Seq::<Seq<char>>::empty());
            assert(start + Seq::<char>::empty() =~= start);
        }
        while i < keys.len()
            invariant
                self.wf(),
                m == self.shelf().map(),
                ks == text::views(keys@),
                i <= keys@.len(),
                forall|j: int| 0 <= j < keys@.len() ==> self.shelf().has(#[trigger] keys@[j]@),
                out@ == start + lines(
                    m,
                    match id {
                        Some(s) => about(m, ks.take(i as int), s@),
                        None => ks.take(i as int),
                    },
                ),
            decreases keys@.len() - i,
        {
            proof {
                assert(ks.take(i + 1).drop_last() =~= ks.take(i as int));
                assert(ks.take(i + 1).last() == ks[i as int]);
                assert(self.shelf().has(keys@[i as int]@));
            }
            let ghost before = out@;
            let ghost so_far = match id {
                Some(s) => about(m, ks.take(i as int), s@),
                None => ks.take(i as int),
            };
            if let Some(mem) = self.find(keys[i].as_str()) {
                assert(m[ks[i as int]] == mem@);
                let wanted = match id {
                    None => true,
                    Some(s) => match mem.scope.subject_id() {
                        Some(t) => text::same(t, s),
                        None => text::same("", s),
                    },
                };
                proof {
                    reveal_strlit("");
                    assert(""@ =~= Seq::<char>::empty());
                }
                if wanted {
                    out.push_str("\n- ");
                    out.push_str(mem.fact.as_str());
                    out.push_str(" (conf ");
                    let c = text::from_u64(mem.confidence as u64);
                    out.push_str(c.as_str());
                    out.push_str(")");
                    proof {
                        assert(out@ =~= before + fact_line(mem@));
                        let now = so_far.push(ks[i as int]);
                        assert(now.drop_last() =~= so_far);
                        assert(match id {
                            Some(s) => about(m, ks.take(i + 1), s@),
                            None => ks.take(i + 1),
                        } =~= now);
                        assert(lines(m, now) == lines(m, so_far) + fact_line(mem@));
                        assert(start + lines(m, so_far) + fact_line(mem@) =~= start + (lines(
                            m,
                            so_far,
                        ) + fact_line(mem@)));
                    }
                }
            }
            i = i + 1;
        }
        assert(ks.take(i as int) =~= ks);
    }

    /// The name that a user is shown under.
    pub fn resolve_username(&self, subject_id: &str) -> (r: String)
        requires
            self.wf(),
        ensures
            r@ == name_of(usernames(self.identities), subject_id@),
    {
        match self.identities.get(subject_id) {
            Some(i) => i.username.clone(),
            None => {
                let mut s = "user ".to_owned();
                s.push_str(subject_id);
                s
            },
        }
    }

    fn subjects_of(&self, keys: &Vec<String>) -> (r: Vec<String>)
        requires
            self.wf(),
            forall|i: int| 0 <= i < keys@.len() ==> self.shelf().has(#[trigger] keys@[i]@),
        ensures
            text::views(r@) == subjects(self.shelf().map(), text::views(keys@)),
    {
        let ghost m = self.shelf().map();
        let ghost ks = text::views(keys@);
        let mut out: Vec<String> = Vec::new();
        let mut i: usize = 0;
        proof {
            assert(text::views(out@) =~= Seq::<Seq<char>>::empty());
            assert(ks.take(0) =~= Seq::<Seq<char>>::empty());
        }
        while i < keys.len()
            invariant
                self.wf(),
                m == self.shelf().map(),
                ks == text::views(keys@),
                i <= keys@.len(),
                forall|j: int| 0 <= j < keys@.len() ==> self.shelf().has(#[trigger] keys@[j]@),
                text::views(out@) == subjects(m, ks.take(i as int)),
            decreases keys@.len() - i,
        {
            let ghost before = text::views(out@);
            proof {
                assert(ks.take(i + 1).drop_last() =~= ks.take(i as int));
                assert(self.shelf().has(keys@[i as int]@));
            }
            if let Some(mem) = self.find(keys[i].as_str()) {
                assert(m[ks[i as int]] == mem@);
                let id = match mem.scope.subject_id() {
                    Some(t) => t.to_owned(),
                    None => String::new(),
                };
                if !text::is_one_of(id.as_str(), &out) {
                    let ghost new = id@;
                    out.push(id);
                    assert(text::views(out@) =~= before.push(new));
                }
            }
            i = i + 1;
        }
        assert(ks.take(i as int) =~= ks);
        out
    }

    fn sort_by_name(&self, ids: &Vec<String>) -> (r: Vec<String>)
        requires
            self.wf(),
        ensures
            text::views(r@) == by_name(usernames(self.identities), text::views(ids@)),
    {
        let ghost names = usernames(self.identities);
        let sorted = store::sort_texts(text::copy_list(ids));
        let ghost ids_sorted = text::views(sorted@);
        let ghost want = Seq::new(
            ids_sorted.len(),
            |i: int| order::Place { rank: 0, key: name_of(names, ids_sorted[i]), index: i },
        );
        let mut items: Vec<Item> = Vec::new();
        let mut i: usize = 0;
        while i < sorted.len()
            invariant
                self.wf(),
                names == usernames(self.identities),
                ids_sorted == text::views(sorted@),
                i <= sorted@.len(),
                items@.len() == i,
                forall|j: int| 0 <= j < i ==> (#[trigger] items@[j])@ == (order::Place {
                    rank: 0,
                    key: name_of(names, ids_sorted[j]),
                    index: j,
                }),
            decreases sorted@.len() - i,
        {
            items.push(
                Item { rank: 0, key: self.resolve_username(sorted[i].as_str()), index: i },
            );
            i = i + 1;
        }
        assert(order::places(items@) =~= want);
        let placed = order::sort(items);
        proof {
            order::lemma_sorted(want);
            assert forall|j: int| 0 <= j < placed@.len() implies (#[trigger] placed@[j]).index
                < sorted@.len() by {
                let p = order::places(placed@)[j];
                assert(order::sorted(want).contains(p));
                assert(want.contains(p));
                let x = want.index_of(p);
                assert(want[x] == p);
            }
        }
        let mut out: Vec<String> = Vec::new();
        let mut k: usize = 0;
        while k < placed.len()
            invariant
                ids_sorted == text::views(sorted@),
                k <= placed@.len(),
                forall|j: int|
                    0 <= j < placed@.len() ==> (#[trigger] placed@[j]).index < sorted@.len(),
                out@.len() == k,
                forall|j: int|
                    0 <= j < k ==> (#[trigger] out@[j])@ == ids_sorted[placed@[j].index as int],
            decreases placed@.len() - k,
        {
            out.push(sorted[placed[k].index].clone());
            k = k + 1;
        }
        assert(text::views(out@) =~= order::places(placed@).map_values(
            |p: order::Place| ids_sorted[p.index],
        ));
        out
    }

    fn count_shown_as(&self, ids: &Vec<String>, name: &str) -> (r: usize)
        requires
            self.wf(),
        ensures
            r == count_named(usernames(self.identities), text::views(ids@), name@),
    {
        let ghost all = text::views(ids@);
        let ghost names = usernames(self.identities);
        let mut n: usize = 0;
        let mut i: usize = 0;
        while i < ids.len()
            invariant
                self.wf(),
                all == text::views(ids@),
                names == usernames(self.identities),
                n <= i <= ids@.len(),
                n == count_named(names, all.take(i as int), name@),
            decreases ids@.len() - i,
        {
            assert(all.take(i + 1).drop_last() =~= all.take(i as int));
            let shown = self.resolve_username(ids[i].as_str());
            if text::same(shown.as_str(), name) {
                n = n + 1;
            }
            i = i + 1;
        }
        assert(all.take(i as int) =~= all);
        n
    }

    /// Appends the section on the facts or the preferences of users.
    fn push_section(&self, pref: bool, cap: usize, out: &mut String)
        requires
            self.wf(),
        ensures
            final(out)@ == old(out)@ + section(
                self.shelf(),
                usernames(self.identities),
                pref,
                cap as nat,
            ),
    {
        let ghost m = self.shelf().map();
        let ghost names = usernames(self.identities);
        let ghost start = out@;
        let tag = if pref {
            "pref"
        } else {
            "user"
        };
        let keys = self.pick(tag, cap);
        let ghost ks = text::views(keys@);
        proof {
            lemma_picked_are_facts(self.shelf(), tag@, cap as nat);
            assert forall|i: int| 0 <= i < keys@.len() implies self.shelf().has(
                #[trigger] keys@[i]@,
            ) by {
                assert(ks[i] == keys@[i]@);
            }
        }
        let ids = self.subjects_of(&keys);
        let ghost all = text::views(ids@);
        let ordered = self.sort_by_name(&ids);
        let ghost ord = text::views(ordered@);
        let mut i: usize = 0;
        proof {
            assert(ord.take(0) =~= Seq::<Seq<char>>::empty());
            assert(start + Seq::<char>::empty() =~= start);
        }
        while i < ordered.len()
            invariant
                self.wf(),
                m == self.shelf().map(),
                names == usernames(self.identities),
                ks == text::views(keys@),
                all == text::views(ids@),
                ord == text::views(ordered@),
                i <= ordered@.len(),
                forall|j: int| 0 <= j < keys@.len() ==> self.shelf().has(#[trigger] keys@[j]@),
                out@ == start + user_parts(m, names, ks, pref, all, ord.take(i as int)),
            decreases ordered@.len() - i,
        {
            let ghost before = user_parts(m, names, ks, pref, all, ord.take(i as int));
            proof {
                assert(ord.take(i + 1).drop_last() =~= ord.take(i as int));
                assert(ord.take(i + 1).last() == ord[i as int]);
            }
            let id = ordered[i].as_str();
            let name = self.resolve_username(id);
            let shared = self.count_shown_as(&ids, name.as_str()) > 1;
            let mut title = if pref {
                let mut t = "\n### ".to_owned();
                t.push_str(name.as_str());
                t.push_str("'s preferences");
                t
            } else {
                let mut t = "\n### About ".to_owned();
                t.push_str(name.as_str());
                t
            };
            if shared {
                title.push_str(" (user ");
                title.push_str(id);
                title.push_str(")");
            }
            assert(title@ == heading(pref, name@, shared, id@));
            out.push_str(title.as_str());
            self.push_lines(&keys, Some(id), out);
            proof {
                let body = lines(m, about(m, ks, id@));
                assert(start + before + title@ + body =~= start + (before + title@ + body));
            }
            i = i + 1;
        }
        assert(ord.take(i as int) =~= ord);
    }

    /// Renders the memories for a prompt: the channel lore, then the facts about users,
    /// then their preferences. Each scope is limited to its most confident facts.
    pub fn format_for_prompt(&self, caps: &Caps) -> (r: Option<String>)
        requires
            self.wf(),
        ensures
            text::opt_view(r) == prompt(self.shelf(), usernames(self.identities), *caps),
    {
        if self.memories.len() == 0 {
            return None;
        }
        let mut out = "\n\n## Known facts".to_owned();
        let lore = self.items_in("lore");
        let ghost start = out@;
        assert(order::places(lore@).len() == lore@.len());
        if lore.len() > 0 {
            out.push_str("\n### Channel lore");
            let keys = self.pick("lore", caps.max_lore);
            proof {
                lemma_picked_are_facts(self.shelf(), "lore"@, caps.max_lore as nat);
                assert forall|i: int| 0 <= i < keys@.len() implies self.shelf().has(
                    #[trigger] keys@[i]@,
                ) by {
                    assert(text::views(keys@)[i] == keys@[i]@);
                }
            }
            self.push_lines(&keys, None, &mut out);
        }
        assert(out@ =~= start + lore_section(self.shelf(), caps.max_lore as nat));
        self.push_section(false, caps.max_user, &mut out);
        self.push_section(true, caps.max_pref, &mut out);
        Some(out)
    }
}


// ---------------------------------------------------------------------------
// What the model is told
// ---------------------------------------------------------------------------

/// The facts of a scope that are picked are its most confident ones, the surest first: no
/// fact that is left out is surer than one that is picked, and none is left out while there
/// is room.
pub proof fn law_surest_facts_are_picked(s: store::Shelf, tag: Seq<char>, cap: nat, k: Seq<char>)
    requires
        s.wf(),
        s.has(k),
        s.get(k).scope.tag() == tag,
    ensures
        picked(s, tag, cap).len() < cap ==> picked(s, tag, cap).contains(k),
        !picked(s, tag, cap).contains(k) ==> forall|i: int|
            0 <= i < picked(s, tag, cap).len() ==> s.get(k).confidence <= s.get(
                #[trigger] picked(s, tag, cap)[i],
            ).confidence,
        forall|i: int, j: int|
            0 <= i < j < picked(s, tag, cap).len() ==> s.get(
                #[trigger] picked(s, tag, cap)[j],
            ).confidence <= s.get(#[trigger] picked(s, tag, cap)[i]).confidence,
{
    lemma_places_in(s, tag);
    let ps = places_in(s, tag);
    let sorted = order::sorted(ps);
    order::lemma_sorted(ps);
    let all = sorted.map_values(|p: order::Place| p.key);
    let out = picked(s, tag, cap);
    let place = order::Place { rank: -(s.get(k).confidence as int), key: k, index: 0 };
    assert(ps.contains(place));
    assert(sorted.contains(place));
    let x = sorted.index_of(place);
    assert(all[x] == k);
    assert forall|i: int| 0 <= i < sorted.len() implies (#[trigger] sorted[i]).rank == -(s.get(
        all[i],
    ).confidence as int) by {
        assert(sorted.contains(sorted[i]));
        assert(ps.contains(sorted[i]));
    }
    let f = order::in_order();
    assert forall|i: int, j: int| 0 <= i < j < out.len() implies s.get(
        #[trigger] out[j],
    ).confidence <= s.get(#[trigger] out[i]).confidence by {
        assert(out[i] == all[i] && out[j] == all[j]);
        assert(f(sorted[i], sorted[j]));
        assert(sorted[i].rank <= sorted[j].rank);
    }
    if out.len() < cap {
        assert(out == all);
        assert(out[x] == k);
    }
    if !out.contains(k) {
        assert forall|i: int| 0 <= i < out.len() implies s.get(k).confidence <= s.get(
            #[trigger] out[i],
        ).confidence by {
            assert(out[i] == all[i]);
            if x < out.len() {
                assert(out[x] == k);
            }
            assert(f(sorted[i], sorted[x]));
            assert(sorted[i].rank <= sorted[x].rank);
        }
    }
}

/// The line of a fact tells its text and how sure it is.
pub proof fn law_fact_line_tells_all(f: store::Fact)
    ensures
        fact_line(f) == "\n- "@ + f.fact + " (conf "@ + text::decimal(f.confidence as nat) + ")"@,
{
}

proof fn lemma_lines_hold(m: Map<Seq<char>, store::Fact>, keys: Seq<Seq<char>>, i: int)
    requires
        0 <= i < keys.len(),
    ensures
        text::has(lines(m, keys), fact_line(m[keys[i]])),
    decreases keys.len(),
{
    broadcast use text::group_parts;

    if i < keys.len() - 1 {
        lemma_lines_hold(m, keys.drop_last(), i);
    }
}

proof fn lemma_about_holds(
    m: Map<Seq<char>, store::Fact>,
    keys: Seq<Seq<char>>,
    i: int,
)
    requires
        0 <= i < keys.len(),
    ensures
        about(m, keys, subject_of(m[keys[i]])).contains(keys[i]),
        subjects(m, keys).contains(subject_of(m[keys[i]])),
    decreases keys.len(),
{
    let id = subject_of(m[keys[i]]);
    let all = about(m, keys, id);
    let ids = subjects(m, keys);
    if i < keys.len() - 1 {
        let d = keys.drop_last();
        lemma_about_holds(m, d, i);
        assert(d[i] == keys[i]);
        let rest = about(m, d, id);
        let k = rest.index_of(keys[i]);
        assert(all[k] == keys[i]);
        let r = subjects(m, d);
        let j = r.index_of(id);
        assert(ids[j] == id);
    } else {
        assert(all[all.len() - 1] == keys[i]);
        if !subjects(m, keys.drop_last()).contains(id) {
            assert(ids[ids.len() - 1] == id);
        }
    }
}

/// Users in the order of their names are the same users.
pub proof fn law_users_by_name_are_the_same(
    names: Map<Seq<char>, Seq<char>>,
    ids: Seq<Seq<char>>,
    id: Seq<char>,
)
    ensures
        by_name(names, ids).len() == ids.len(),
        ids.contains(id) ==> by_name(names, ids).contains(id),
{
    let sorted = store::sorted_texts(ids);
    store::law_sorted_texts_are_the_same(ids, id);
    let ps = Seq::new(
        sorted.len(),
        |i: int| order::Place { rank: 0, key: name_of(names, sorted[i]), index: i },
    );
    order::lemma_sorted(ps);
    let t = order::sorted(ps);
    let out = by_name(names, ids);
    if ids.contains(id) {
        let i = sorted.index_of(id);
        assert(ps[i].index == i);
        assert(ps.contains(ps[i]));
        assert(t.contains(ps[i]));
        let k = t.index_of(ps[i]);
        assert(out[k] == sorted[i]);
    }
}

proof fn lemma_parts_hold(
    m: Map<Seq<char>, store::Fact>,
    names: Map<Seq<char>, Seq<char>>,
    keys: Seq<Seq<char>>,
    pref: bool,
    all: Seq<Seq<char>>,
    ids: Seq<Seq<char>>,
    i: int,
)
    requires
        0 <= i < ids.len(),
    ensures
        text::has(user_parts(m, names, keys, pref, all, ids), lines(m, about(m, keys, ids[i]))),
        text::has(
            user_parts(m, names, keys, pref, all, ids),
            heading(
                pref,
                name_of(names, ids[i]),
                count_named(names, all, name_of(names, ids[i])) > 1,
                ids[i],
            ),
        ),
    decreases ids.len(),
{
    broadcast use text::group_parts;

    if i < ids.len() - 1 {
        lemma_parts_hold(m, names, keys, pref, all, ids.drop_last(), i);
        assert(ids.drop_last()[i] == ids[i]);
    }
}

/// The model is told every fact that is picked: of the channel, of users, and of how they
/// want to be treated, each up to its own limit.
pub proof fn law_picked_facts_are_told(
    s: store::Shelf,
    names: Map<Seq<char>, Seq<char>>,
    caps: Caps,
    k: Seq<char>,
)
    requires
        s.wf(),
        s.has(k),
        picked(s, "lore"@, caps.max_lore as nat).contains(k) || picked(
            s,
            "user"@,
            caps.max_user as nat,
        ).contains(k) || picked(s, "pref"@, caps.max_pref as nat).contains(k),
    ensures
        prompt(s, names, caps) matches Some(t) && text::has(t, fact_line(s.map()[k])),
        prompt(s, names, caps) matches Some(t) && text::has_prefix(t, "\n\n## Known facts"@),
{
    broadcast use text::group_parts;

    assert(s.keys.len() > 0);
    let lore = picked(s, "lore"@, caps.max_lore as nat);
    if lore.contains(k) {
        lemma_picked_are_facts(s, "lore"@, caps.max_lore as nat);
        order::lemma_sorted(places_in(s, "lore"@));
        let i = lore.index_of(k);
        lemma_lines_hold(s.map(), lore, i);
        assert(text::has(lore_section(s, caps.max_lore as nat), fact_line(s.map()[k])));
    }
    if picked(s, "user"@, caps.max_user as nat).contains(k) {
        lemma_section_holds(s, names, false, caps.max_user as nat, k);
    }
    if picked(s, "pref"@, caps.max_pref as nat).contains(k) {
        lemma_section_holds(s, names, true, caps.max_pref as nat, k);
    }
    let a = "\n\n## Known facts"@ + lore_section(s, caps.max_lore as nat);
    let b = a + section(s, names, false, caps.max_user as nat);
    assert(prompt(s, names, caps)->0 == b + section(s, names, true, caps.max_pref as nat));
}

proof fn lemma_section_holds(
    s: store::Shelf,
    names: Map<Seq<char>, Seq<char>>,
    pref: bool,
    cap: nat,
    k: Seq<char>,
)
    requires
        picked(
            s,
            if pref {
                "pref"@
            } else {
                "user"@
            },
            cap,
        ).contains(k),
    ensures
        text::has(section(s, names, pref, cap), fact_line(s.map()[k])),
{
    let m = s.map();
    let keys = picked(
        s,
        if pref {
            "pref"@
        } else {
            "user"@
        },
        cap,
    );
    let i = keys.index_of(k);
    lemma_about_holds(m, keys, i);
    let id = subject_of(m[k]);
    let ids = subjects(m, keys);
    law_users_by_name_are_the_same(names, ids, id);
    let ordered = by_name(names, ids);
    let j = ordered.index_of(id);
    lemma_parts_hold(m, names, keys, pref, ids, ordered, j);
    let own = about(m, keys, id);
    let x = own.index_of(k);
    lemma_lines_hold(m, own, x);
    text::law_part_of_part(section(s, names, pref, cap), lines(m, own), fact_line(m[k]));
}

/// Facts about a user stand under their name, and how they want to be treated under a heading
/// of its own; users with one name are told apart by their ids. Users without a name are
/// called by their ids.
pub proof fn law_headings_name_users(
    names: Map<Seq<char>, Seq<char>>,
    pref: bool,
    name: Seq<char>,
    id: Seq<char>,
)
    ensures
        text::has(heading(pref, name, false, id), name),
        text::has(heading(pref, name, true, id), name),
        text::has(heading(pref, name, true, id), " (user "@ + id + ")"@),
        text::has_suffix(heading(true, name, false, id), "'s preferences"@),
        text::has_suffix(heading(false, name, false, id), name),
        text::has_prefix(heading(false, name, false, id), "\n### About "@),
        names.contains_key(id) ==> name_of(names, id) == names[id],
        !names.contains_key(id) ==> name_of(names, id) == "user "@ + id,
{
    broadcast use text::group_parts;

    let title = if pref {
        "\n### "@ + name + "'s preferences"@
    } else {
        "\n### About "@ + name
    };
    assert(heading(pref, name, true, id) =~= title + (" (user "@ + id + ")"@));
    assert(text::has(title + (" (user "@ + id + ")"@), " (user "@ + id + ")"@));
    assert(text::has(title, name));
}


/// The users who are shown under a name are counted, each once.
pub proof fn law_names_are_counted(
    names: Map<Seq<char>, Seq<char>>,
    ids: Seq<Seq<char>>,
    id: Seq<char>,
    name: Seq<char>,
)
    ensures
        count_named(names, Seq::empty(), name) == 0,
        name_of(names, id) == name ==> count_named(names, ids.push(id), name) == count_named(
            names,
            ids,
            name,
        ) + 1,
        name_of(names, id) != name ==> count_named(names, ids.push(id), name) == count_named(
            names,
            ids,
            name,
        ),
{
    assert(ids.push(id).drop_last() =~= ids);
}

} // verus!
