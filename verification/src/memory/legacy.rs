//! Memories in the format before scopes, and how they move into the store.
use vstd::prelude::*;
use crate::memory::scope;
use crate::memory::scope::Scope;
use crate::memory::store;
use crate::memory::store::{Memory, MemoryStore};
use crate::text;
use crate::time;
use crate::time::Timestamp;

verus! {

/// A memory in the old format, under its old key. The times are RFC 3339 texts.
#[derive(Debug, Clone)]
pub struct LegacyMemory {
    pub key: String,
    pub fact: String,
    pub created_at: String,
    pub updated_at: String,
}

/// The confidence that an old memory is given.
pub const LEGACY_CONFIDENCE: u8 = 40;

/// A slug with a number behind it; without one for zero.
pub open spec fn numbered(base: Seq<char>, n: nat) -> Seq<char> {
    if n == 0 {
        base
    } else {
        base + "-"@ + text::decimal(n)
    }
}

/// The key that an old memory is given with a number.
pub open spec fn legacy_key(base: Seq<char>, n: nat) -> Seq<char> {
    "lore::"@ + numbered(base, n)
}

proof fn lemma_decimal_nonempty(n: nat)
    ensures
        text::decimal(n).len() > 0,
    decreases n,
{
    if n >= 10 {
        lemma_decimal_nonempty(n / 10);
    }
}

/// Different numbers have different digits.
pub proof fn lemma_decimal_injective(a: nat, b: nat)
    requires
        text::decimal(a) == text::decimal(b),
    ensures
        a == b,
    decreases a,
{
    let x = text::decimal(a);
    let y = text::decimal(b);
    if a < 10 {
        if b < 10 {
            assert(x[0] == text::digit(a));
            assert(y[0] == text::digit(b));
        } else {
            lemma_decimal_nonempty(b / 10);
            assert(y.len() > 1);
        }
    } else if b < 10 {
        lemma_decimal_nonempty(a / 10);
        assert(x.len() > 1);
    } else {
        let p = text::decimal(a / 10);
        let q = text::decimal(b / 10);
        assert(x.drop_last() =~= p);
        assert(y.drop_last() =~= q);
        lemma_decimal_injective(a / 10, b / 10);
        assert(x.last() == text::digit(a % 10));
        assert(y.last() == text::digit(b % 10));
    }
}

proof fn lemma_legacy_key_injective(base: Seq<char>, a: nat, b: nat)
    requires
        legacy_key(base, a) == legacy_key(base, b),
    ensures
        a == b,
{
    let p = "lore::"@;
    let x = numbered(base, a);
    let y = numbered(base, b);
    assert((p + x).skip(p.len() as int) =~= x);
    assert((p + y).skip(p.len() as int) =~= y);
    reveal_strlit("-");
    if a > 0 && b > 0 {
        let n = base.len() as int + 1;
        assert(x.skip(n) =~= text::decimal(a));
        assert(y.skip(n) =~= text::decimal(b));
        lemma_decimal_injective(a, b);
    } else if a > 0 {
        assert(x.len() > base.len());
    } else if b > 0 {
        assert(y.len() > base.len());
    }
}

/// So many keys with smaller numbers are taken only if there are so many keys.
proof fn lemma_taken_bound(keys: Seq<Seq<char>>, base: Seq<char>, n: nat)
    requires
        keys.no_duplicates(),
        forall|i: nat| i < n ==> keys.contains(#[trigger] legacy_key(base, i)),
    ensures
        n <= keys.len(),
{
    let taken = Seq::new(n, |i: int| legacy_key(base, i as nat));
    assert forall|i: int, j: int| 0 <= i < taken.len() && 0 <= j < taken.len() && i != j implies taken[i]
        != taken[j] by {
        if taken[i] == taken[j] {
            lemma_legacy_key_injective(base, i as nat, j as nat);
        }
    }
    taken.unique_seq_to_set();
    keys.unique_seq_to_set();
    assert(taken.to_set().subset_of(keys.to_set())) by {
        assert forall|k: Seq<char>| taken.to_set().contains(k) implies keys.to_set().contains(k) by {
            let i = taken.index_of(k);
            assert(taken[i] == k);
            assert(keys.contains(legacy_key(base, i as nat)));
        }
    }
    vstd::set_lib::lemma_len_subset(taken.to_set(), keys.to_set());
}

/// Whether `n` is the smallest number whose key is free.
pub open spec fn is_first_free(keys: Seq<Seq<char>>, base: Seq<char>, n: nat) -> bool {
    &&& !keys.contains(legacy_key(base, n))
    &&& forall|i: nat| i < n ==> keys.contains(#[trigger] legacy_key(base, i))
}

/// The fact that an old memory becomes. A time that cannot be read is the present for
/// the update, and the time of the update for the creation.
pub open spec fn is_migrated(f: store::Fact, m: LegacyMemory, now: Timestamp) -> bool {
    &&& f.fact == m.fact@
    &&& f.scope == scope::About::Lore
    &&& f.sources == seq!["legacy"@]
    &&& f.confidence == LEGACY_CONFIDENCE
    &&& if time::reads_as_rfc3339(m.updated_at@) {
        time::is_rfc3339(f.updated_at, m.updated_at@)
    } else {
        f.updated_at == now
    }
    &&& if time::reads_as_rfc3339(m.created_at@) {
        time::is_rfc3339(f.created_at, m.created_at@)
    } else {
        f.created_at == f.updated_at
    }
    &&& f.last_accessed == f.updated_at
    &&& f.access_count == 0
}

/// Whether a shelf is one that old memories move to, in order: each under the first free
/// key for the slug of its old one.
pub open spec fn migrated(s: store::Shelf, list: Seq<LegacyMemory>, now: Timestamp) -> bool
    decreases list.len(),
{
    &&& s.keys.len() == list.len()
    &&& s.facts.len() == list.len()
    &&& list.len() > 0 ==> {
        let m = list.last();
        let before = store::Shelf { keys: s.keys.drop_last(), facts: s.facts.drop_last() };
        &&& migrated(before, list.drop_last(), now)
        &&& is_migrated(s.facts.last(), m, now)
        &&& exists|n: nat|
            #![trigger legacy_key(store::slug_of(m.key@), n)]
            is_first_free(before.keys, store::slug_of(m.key@), n) && s.keys.last() == legacy_key(
                store::slug_of(m.key@),
                n,
            )
    }
}

fn free_key(s: &MemoryStore, base: &str) -> (r: String)
    requires
        s.wf(),
    ensures
        exists|n: nat|
            #![trigger legacy_key(base@, n)]
            is_first_free(s.shelf().keys, base@, n) && r@ == legacy_key(base@, n),
        !s.shelf().has(r@),
{
    let ghost keys = s.shelf().keys;
    let total: usize = s.memories.len();
    let mut n: u128 = 0;
    let mut key = "lore::".to_owned();
    key.push_str(base);
    while s.memories.contains_key(key.as_str())
        invariant
            s.wf(),
            keys == s.shelf().keys,
            key@ == legacy_key(base@, n as nat),
            n <= keys.len(),
            keys.len() == total,
            forall|i: nat| i < n ==> keys.contains(#[trigger] legacy_key(base@, i)),
        decreases keys.len() - n,
    {
        proof {
            assert forall|i: nat| i < n + 1 implies keys.contains(
                #[trigger] legacy_key(base@, i),
            ) by {
                if i == n {
                    assert(keys.contains(legacy_key(base@, n as nat)));
                }
            }
            lemma_taken_bound(keys, base@, (n + 1) as nat);
        }
        n = n + 1;
        key = "lore::".to_owned();
        let mut slug = base.to_owned();
        slug.push_str("-");
        let d = text::from_u128(n);
        slug.push_str(d.as_str());
        key.push_str(slug.as_str());
    }
    assert(is_first_free(keys, base@, n as nat));
    key
}

/// Moves old memories into a new store, as channel lore with little confidence. Old keys
/// that share a slug are told apart by a number.
pub fn migrate(list: &Vec<LegacyMemory>, now: Timestamp) -> (r: MemoryStore)
    ensures
        r.wf(),
        r.version == 2,
        r.names() == Map::<Seq<char>, store::Known>::empty(),
        migrated(r.shelf(), list@, now),
{
    let mut out = MemoryStore::new();
    let mut i: usize = 0;
    assert(list@.take(0) =~= Seq::<LegacyMemory>::empty());
    while i < list.len()
        invariant
            i <= list@.len(),
            out.wf(),
            out.version == 2,
            out.names() == Map::<Seq<char>, store::Known>::empty(),
            migrated(out.shelf(), list@.take(i as int), now),
        decreases list@.len() - i,
    {
        let m = &list[i];
        let ghost before = out.shelf();
        let base = store::sanitize_slug(m.key.as_str());
        let key = free_key(&out, base.as_str());
        let ghost k = key@;
        let updated = match time::read_rfc3339(m.updated_at.as_str()) {
            Some(t) => t,
            None => now,
        };
        let created = match time::read_rfc3339(m.created_at.as_str()) {
            Some(t) => t,
            None => updated,
        };
        let mut sources: Vec<String> = Vec::new();
        sources.push("legacy".to_owned());
        assert(text::views(sources@) =~= seq!["legacy"@]);
        let mem = Memory {
            fact: m.fact.clone(),
            scope: Scope::Lore,
            sources,
            confidence: LEGACY_CONFIDENCE,
            created_at: created,
            updated_at: updated,
            last_accessed: updated,
            access_count: 0,
        };
        let ghost f = mem@;
        out.memories.insert(key, mem);
        proof {
            let s = out.shelf();
            assert(s.keys =~= before.keys.push(k));
            assert(s.facts =~= before.facts.push(f));
            assert(s.keys.drop_last() =~= before.keys);
            assert(s.facts.drop_last() =~= before.facts);
            assert(list@.take(i + 1).drop_last() =~= list@.take(i as int));
            assert(list@.take(i + 1).last() == list@[i as int]);
            assert(store::Shelf { keys: s.keys.drop_last(), facts: s.facts.drop_last() }
                =~= before);
        }
        i = i + 1;
    }
    assert(list@.take(i as int) =~= list@);
    out
}

/// No old memory is lost: as many move as there were, under keys that all differ.
pub proof fn law_migration_keeps_all(s: store::Shelf, list: Seq<LegacyMemory>, now: Timestamp)
    requires
        migrated(s, list, now),
    ensures
        s.keys.len() == list.len(),
        s.keys.no_duplicates(),
        forall|i: int| 0 <= i < list.len() ==> is_migrated(s.facts[i], #[trigger] list[i], now),
    decreases list.len(),
{
    if list.len() > 0 {
        let before = store::Shelf { keys: s.keys.drop_last(), facts: s.facts.drop_last() };
        law_migration_keeps_all(before, list.drop_last(), now);
        let m = list.last();
        let n = choose|n: nat|
            #![trigger legacy_key(store::slug_of(m.key@), n)]
            is_first_free(before.keys, store::slug_of(m.key@), n) && s.keys.last() == legacy_key(
                store::slug_of(m.key@),
                n,
            );
        assert(!before.keys.contains(s.keys.last()));
        assert forall|i: int, j: int|
            0 <= i < s.keys.len() && 0 <= j < s.keys.len() && i != j implies s.keys[i]
            != s.keys[j] by {
            if i < s.keys.len() - 1 {
                assert(before.keys[i] == s.keys[i]);
            }
            if j < s.keys.len() - 1 {
                assert(before.keys[j] == s.keys[j]);
            }
        }
        assert forall|i: int| 0 <= i < list.len() implies is_migrated(
            s.facts[i],
            #[trigger] list[i],
            now,
        ) by {
            if i < list.len() - 1 {
                assert(list.drop_last()[i] == list[i]);
                assert(before.facts[i] == s.facts[i]);
            }
        }
    }
}

// ---------------------------------------------------------------------------
// Texts
// ---------------------------------------------------------------------------

/// The line of an old memory.
pub open spec fn legacy_line(m: LegacyMemory) -> Seq<char> {
    "- "@ + m.key@ + ": "@ + m.fact@
}

/// The lines of some old memories, in ascending order.
pub open spec fn legacy_text(list: Seq<LegacyMemory>) -> Seq<char> {
    text::join(
        store::sorted_texts(Seq::new(list.len(), |i: int| legacy_line(list[i]))),
        "\n"@,
    )
}

/// Old memories as they are put into the system prompt.
pub open spec fn legacy_prompt(list: Seq<LegacyMemory>) -> Option<Seq<char>> {
    if list.len() == 0 {
        None
    } else {
        Some("\n\n## Known facts\n"@ + legacy_text(list))
    }
}

/// Old memories as the extractor is shown them.
pub open spec fn legacy_listing(list: Seq<LegacyMemory>) -> Seq<char> {
    if list.len() == 0 {
        "(none)"@
    } else {
        legacy_text(list)
    }
}

fn join_lines(list: &Vec<LegacyMemory>) -> (r: String)
    ensures
        r@ == legacy_text(list@),
{
    let mut lines: Vec<String> = Vec::new();
    let mut i: usize = 0;
    while i < list.len()
        invariant
            i <= list@.len(),
            lines@.len() == i,
            forall|j: int| 0 <= j < i ==> lines@[j]@ == legacy_line(#[trigger] list@[j]),
        decreases list@.len() - i,
    {
        let mut s = "- ".to_owned();
        s.push_str(list[i].key.as_str());
        s.push_str(": ");
        s.push_str(list[i].fact.as_str());
        lines.push(s);
        i = i + 1;
    }
    assert(text::views(lines@) =~= Seq::new(list@.len(), |j: int| legacy_line(list@[j])));
    let sorted = store::sort_texts(lines);
    text::joined(&sorted, "\n")
}

/// Old memories as they are put into the system prompt; nothing where there are none.
pub fn format_for_prompt(list: &Vec<LegacyMemory>) -> (r: Option<String>)
    ensures
        text::opt_view(r) == if list@.len() == 0 {
            None
        } else {
            Some("\n\n## Known facts\n"@ + legacy_text(list@))
        },
        text::opt_view(r) == legacy_prompt(list@),
{
    if list.len() == 0 {
        return None;
    }
    let mut s = "\n\n## Known facts\n".to_owned();
    s.push_str(join_lines(list).as_str());
    Some(s)
}

/// Old memories as the extractor is shown them.
pub fn format_for_extraction(list: &Vec<LegacyMemory>) -> (r: String)
    ensures
        r@ == if list@.len() == 0 {
            "(none)"@
        } else {
            legacy_text(list@)
        },
        r@ == legacy_listing(list@),
{
    if list.len() == 0 {
        return "(none)".to_owned();
    }
    join_lines(list)
}


/// An old memory becomes lore of the channel with its text, a confidence of 40 and a source
/// that says where it comes from; it keeps its times, as far as they can be read.
pub proof fn law_old_memories_become_lore(f: store::Fact, m: LegacyMemory, now: Timestamp)
    requires
        is_migrated(f, m, now),
    ensures
        f.fact == m.fact@,
        f.scope is Lore,
        f.confidence == 40,
        f.sources == seq!["legacy"@],
        f.access_count == 0,
        f.last_accessed == f.updated_at,
        time::reads_as_rfc3339(m.updated_at@) ==> time::is_rfc3339(f.updated_at, m.updated_at@),
        !time::reads_as_rfc3339(m.updated_at@) ==> f.updated_at == now,
        time::reads_as_rfc3339(m.created_at@) ==> time::is_rfc3339(f.created_at, m.created_at@),
        !time::reads_as_rfc3339(m.created_at@) ==> f.created_at == f.updated_at,
{
}

/// An old memory moves to the slug of its old key, with a number behind it just where that is
/// taken.
pub proof fn law_old_keys_are_kept(keys: Seq<Seq<char>>, base: Seq<char>, n: nat)
    requires
        is_first_free(keys, base, n),
    ensures
        !keys.contains("lore::"@ + base) ==> legacy_key(base, n) == "lore::"@ + base,
        n > 0 ==> legacy_key(base, n) == "lore::"@ + (base + "-"@ + text::decimal(n)),
        !keys.contains(legacy_key(base, n)),
{
    if n > 0 {
        assert(keys.contains(legacy_key(base, 0)));
    }
}

/// Every old memory is told with its key and its text.
pub proof fn law_old_memories_are_told(list: Seq<LegacyMemory>, i: int)
    requires
        0 <= i < list.len(),
    ensures
        legacy_prompt(list) matches Some(t) && text::has(
            t,
            "- "@ + list[i].key@ + ": "@ + list[i].fact@,
        ),
        text::has(legacy_listing(list), "- "@ + list[i].key@ + ": "@ + list[i].fact@),
        legacy_prompt(Seq::empty()) is None,
{
    broadcast use text::group_parts;

    let lines = Seq::new(list.len(), |j: int| legacy_line(list[j]));
    let line = legacy_line(list[i]);
    assert(lines[i] == line);
    store::law_sorted_texts_are_the_same(lines, line);
    let all = store::sorted_texts(lines);
    let k = all.index_of(line);
    text::law_joined_holds_each(all, "\n"@, k);
}

} // verus!
