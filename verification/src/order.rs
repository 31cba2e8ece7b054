//! Sorting: items with a rank, a text and a position, put in order by rank, then by
//! text, then by position.
use vstd::prelude::*;
use crate::text;

verus! {

/// What an item is sorted by. The position keeps the sort stable: of two items with
/// the same rank and text, the one with the smaller position comes first.
#[verifier::ext_equal]
pub ghost struct Place {
    pub rank: int,
    pub key: Seq<char>,
    pub index: int,
}

/// An item to be sorted.
pub struct Item {
    pub rank: i64,
    pub key: String,
    pub index: usize,
}

impl Item {
    pub open spec fn view(&self) -> Place {
        Place { rank: self.rank as int, key: self.key@, index: self.index as int }
    }
}

/// The places of a sequence of items.
pub open spec fn places(items: Seq<Item>) -> Seq<Place> {
    Seq::new(items.len(), |i: int| items[i]@)
}

/// The order of two places: by rank, then by text, then by position.
pub open spec fn before(a: Place, b: Place) -> bool {
    if a.rank != b.rank {
        a.rank < b.rank
    } else if a.key != b.key {
        text::le(a.key, b.key)
    } else {
        a.index <= b.index
    }
}

pub open spec fn in_order() -> spec_fn(Place, Place) -> bool {
    |a: Place, b: Place| before(a, b)
}

/// The places in ascending order.
pub open spec fn sorted(s: Seq<Place>) -> Seq<Place> {
    s.sort_by(in_order())
}

pub proof fn lemma_total()
    ensures
        vstd::relations::total_ordering(in_order()),
{
    let r = in_order();
    assert forall|a: Place| #[trigger] r(a, a) by {
        text::lemma_le_reflexive(a.key);
    }
    assert forall|a: Place, b: Place| #[trigger] r(a, b) && #[trigger] r(b, a) implies a == b by {
        if a.rank == b.rank && a.key != b.key {
            text::lemma_le_antisymmetric(a.key, b.key);
        }
    }
    assert forall|a: Place, b: Place, c: Place| #[trigger] r(a, b) && #[trigger] r(b, c) implies r(
        a,
        c,
    ) by {
        if a.rank == b.rank && b.rank == c.rank && a.key != b.key && b.key != c.key {
            text::lemma_le_transitive(a.key, b.key, c.key);
            if a.key == c.key {
                text::lemma_le_antisymmetric(a.key, b.key);
            }
        }
    }
    assert forall|a: Place, b: Place| #[trigger] r(a, b) || #[trigger] r(b, a) by {
        text::lemma_le_total(a.key, b.key);
    }
}

/// What sorting gives: the same places, in ascending order.
pub proof fn lemma_sorted(s: Seq<Place>)
    ensures
        sorted(s).len() == s.len(),
        sorted(s).to_multiset() == s.to_multiset(),
        vstd::relations::sorted_by(sorted(s), in_order()),
        forall|x: Place| #[trigger] sorted(s).contains(x) <==> s.contains(x),
{
    lemma_total();
    s.lemma_sort_by_ensures(in_order());
    vstd::seq_lib::to_multiset_len(s);
    vstd::seq_lib::to_multiset_len(sorted(s));
    assert forall|x: Place| #[trigger] sorted(s).contains(x) <==> s.contains(x) by {
        vstd::seq_lib::to_multiset_contains(s, x);
        vstd::seq_lib::to_multiset_contains(sorted(s), x);
    }
}

/// A sequence that is in order and holds the same places is the sorted one.
pub proof fn lemma_sorted_is(s: Seq<Place>, t: Seq<Place>)
    requires
        t.to_multiset() == s.to_multiset(),
        vstd::relations::sorted_by(t, in_order()),
    ensures
        sorted(s) == t,
{
    lemma_total();
    lemma_sorted(s);
    vstd::seq_lib::lemma_sorted_unique(sorted(s), t, in_order());
}

/// Sequences that hold the same items still do so once each item is mapped.
pub proof fn lemma_map_multiset<A, B>(s: Seq<A>, t: Seq<A>, f: spec_fn(A) -> B)
    requires
        s.to_multiset() == t.to_multiset(),
    ensures
        s.map_values(f).to_multiset() == t.map_values(f).to_multiset(),
    decreases s.len(),
{
    broadcast use vstd::multiset::group_multiset_axioms;

    vstd::seq_lib::to_multiset_len(s);
    vstd::seq_lib::to_multiset_len(t);
    if s.len() == 0 {
        assert(s.map_values(f) =~= t.map_values(f));
    } else {
        let x = s.last();
        assert(s.contains(x));
        vstd::seq_lib::to_multiset_contains(s, x);
        vstd::seq_lib::to_multiset_contains(t, x);
        let k = t.index_of(x);
        assert(t[k] == x);
        assert(s.remove(s.len() - 1) =~= s.drop_last());
        vstd::seq_lib::to_multiset_remove(s, s.len() - 1);
        vstd::seq_lib::to_multiset_remove(t, k);
        lemma_map_multiset(s.drop_last(), t.remove(k), f);
        let ms = s.map_values(f);
        let mt = t.map_values(f);
        assert(ms =~= s.drop_last().map_values(f).push(f(x)));
        vstd::seq_lib::to_multiset_build(s.drop_last().map_values(f), f(x));
        assert(mt.remove(k) =~= t.remove(k).map_values(f));
        vstd::seq_lib::to_multiset_remove(mt, k);
        vstd::seq_lib::to_multiset_contains(mt, f(x));
        assert(mt[k] == f(x));
        assert(mt.to_multiset() =~= mt.to_multiset().remove(f(x)).insert(f(x)));
    }
}

fn comes_before(a: &Item, b: &Item) -> (r: bool)
    ensures
        r == before(a@, b@),
{
    if a.rank != b.rank {
        a.rank < b.rank
    } else if !text::same(a.key.as_str(), b.key.as_str()) {
        text::at_most(a.key.as_str(), b.key.as_str())
    } else {
        a.index <= b.index
    }
}

/// Puts the items in ascending order.
pub fn sort(items: Vec<Item>) -> (r: Vec<Item>)
    ensures
        places(r@) == sorted(places(items@)),
{
    let mut rest = items;
    let mut out: Vec<Item> = Vec::new();
    proof {
        broadcast use vstd::seq_lib::group_to_multiset_ensures;

        assert(places(out@) =~= Seq::<Place>::empty());
        assert(places(out@).to_multiset() =~= vstd::multiset::Multiset::<Place>::empty());
        assert(places(out@).to_multiset().add(places(rest@).to_multiset())
            =~= places(items@).to_multiset());
    }
    while rest.len() > 0
        invariant
            vstd::relations::sorted_by(places(out@), in_order()),
            places(out@).to_multiset().add(places(rest@).to_multiset())
                == places(items@).to_multiset(),
        decreases rest@.len(),
    {
        let ghost rest0 = places(rest@);
        let ghost out0 = places(out@);
        let x = rest.pop().unwrap();
        let ghost px = x@;
        proof {
            assert(rest0 =~= places(rest@).push(px));
            vstd::seq_lib::to_multiset_build(places(rest@), px);
        }
        let mut i: usize = 0;
        while i < out.len() && comes_before(&out[i], &x)
            invariant
                i <= out@.len(),
                forall|j: int| 0 <= j < i ==> before(#[trigger] out@[j]@, x@),
            decreases out@.len() - i,
        {
            i = i + 1;
        }
        proof {
            lemma_total();
            let r = in_order();
            assert forall|j: int| i <= j < out0.len() implies before(px, #[trigger] out0[j]) by {
                assert(r(px, out0[i as int]) || r(out0[i as int], px));
                if j > i {
                    assert(r(out0[i as int], out0[j]));
                    assert(r(px, out0[i as int]));
                }
            }
            vstd::seq_lib::to_multiset_insert(out0, i as int, px);
        }
        out.insert(i, x);
        proof {
            let now = places(out@);
            assert(now =~= out0.insert(i as int, px));
            let r = in_order();
            assert forall|a: int, b: int| 0 <= a < b < now.len() implies #[trigger] r(
                now[a],
                now[b],
            ) by {
                if a < i && b < i {
                    assert(r(out0[a], out0[b]));
                } else if a < i && b == i {
                    assert(before(out@[a]@, px));
                } else if a < i && b > i {
                    assert(r(out0[a], out0[b - 1]));
                } else if a == i {
                    assert(before(px, out0[b - 1]));
                } else {
                    assert(r(out0[a - 1], out0[b - 1]));
                }
            }
            assert(now.to_multiset().add(places(rest@).to_multiset())
                =~= out0.to_multiset().add(rest0.to_multiset()));
        }
    }
    proof {
        assert(places(rest@) =~= Seq::<Place>::empty());
        assert(places(out@).to_multiset() =~= places(items@).to_multiset());
        lemma_sorted_is(places(items@), places(out@));
    }
    out
}


/// Sorted items stand by rank, of one rank by text, and of one text by position.
pub proof fn law_sorted_stand_in_order(s: Seq<Place>, i: int, j: int)
    requires
        0 <= i < j < s.len(),
    ensures
        sorted(s).len() == s.len(),
        sorted(s).to_multiset() == s.to_multiset(),
        sorted(s)[i].rank <= sorted(s)[j].rank,
        sorted(s)[i].rank == sorted(s)[j].rank ==> text::le(sorted(s)[i].key, sorted(s)[j].key),
        sorted(s)[i].rank == sorted(s)[j].rank && sorted(s)[i].key == sorted(s)[j].key ==> sorted(
            s,
        )[i].index <= sorted(s)[j].index,
{
    lemma_sorted(s);
    let t = sorted(s);
    let r = in_order();
    assert(r(t[i], t[j]));
    text::lemma_le_reflexive(t[i].key);
}

} // verus!
