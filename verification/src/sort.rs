//! The order of entries within a listing: ascending by sort key, entries
//! with the same key staying in the order in which they were found.

use crate::entry::{entry_views, DirectoryEntry, EntryView};
use crate::text::{chars_lt, chars_of, lex_le, lex_lt};
use crate::text::{lemma_lex_asymmetric, lemma_lex_irreflexive, lemma_lex_total, lemma_lex_transitive};
use vstd::prelude::*;

verus! {

/// Whether the sort keys of `s` never descend.
pub open spec fn sorted_by_key(s: Seq<EntryView>) -> bool {
    forall|i: int, j: int|
        #![trigger s[i], s[j]]
        0 <= i < j < s.len() ==> lex_le(s[i].sort_key, s[j].sort_key)
}

/// The entries of `s` whose sort key is `key`, in the order of `s`.
pub open spec fn with_key(s: Seq<EntryView>, key: Seq<char>) -> Seq<EntryView> {
    s.filter(|e: EntryView| e.sort_key == key)
}

/// Whether `sorted` is `given` put in ascending order of sort keys with ties
/// left as they were: for each key, the entries with that key are the same and
/// in the same order.
pub open spec fn is_stable_sort(sorted: Seq<EntryView>, given: Seq<EntryView>) -> bool {
    &&& sorted_by_key(sorted)
    &&& forall|key: Seq<char>| #[trigger] with_key(sorted, key) == with_key(given, key)
}

/// The entries in ascending order of sort keys, ties left as they were. There
/// is one such sequence, which `sort_entries` computes.
pub open spec fn stable_sort(given: Seq<EntryView>) -> Seq<EntryView> {
    choose|sorted: Seq<EntryView>| is_stable_sort(sorted, given)
}

/// Whether no two entries of `s` have the same sort key.
pub open spec fn distinct_keys(s: Seq<EntryView>) -> bool {
    forall|i: int, j: int|
        #![trigger s[i], s[j]]
        0 <= i < j < s.len() ==> s[i].sort_key != s[j].sort_key
}

/// The non-strict order is transitive.
proof fn lemma_lex_le_transitive(a: Seq<char>, b: Seq<char>, c: Seq<char>)
    requires
        lex_le(a, b),
        lex_le(b, c),
    ensures
        lex_le(a, c),
{
    if lex_lt(c, a) {
        lemma_lex_total(a, b);
        if lex_lt(a, b) {
            lemma_lex_transitive(c, a, b);
        }
    }
}

/// Filtering a one-element sequence keeps the element or nothing.
proof fn lemma_filter_one<A>(x: A, pred: spec_fn(A) -> bool)
    ensures
        seq![x].filter(pred) == (if pred(x) {
            seq![x]
        } else {
            Seq::<A>::empty()
        }),
{
    reveal_with_fuel(Seq::filter, 2);
    assert(seq![x].drop_last() =~= Seq::<A>::empty());
    assert(Seq::<A>::empty().push(x) =~= seq![x]);
}

/// Filtering a sequence with an element put in filters the part before it,
/// the element, and the part after it.
proof fn lemma_filter_insert<A>(s: Seq<A>, p: int, x: A, pred: spec_fn(A) -> bool)
    requires
        0 <= p <= s.len(),
    ensures
        s.filter(pred) == s.take(p).filter(pred) + s.skip(p).filter(pred),
        s.insert(p, x).filter(pred) == s.take(p).filter(pred) + seq![x].filter(pred) + s.skip(
            p,
        ).filter(pred),
{
    assert(s =~= s.take(p) + s.skip(p));
    assert(s.insert(p, x) =~= s.take(p) + seq![x] + s.skip(p));
    Seq::filter_distributes_over_add(s.take(p), s.skip(p), pred);
    Seq::filter_distributes_over_add(s.take(p), seq![x], pred);
    Seq::filter_distributes_over_add(s.take(p) + seq![x], s.skip(p), pred);
}

/// A sequence none of whose elements passes has an empty filter.
proof fn lemma_filter_none<A>(s: Seq<A>, pred: spec_fn(A) -> bool)
    requires
        forall|i: int| 0 <= i < s.len() ==> !pred(#[trigger] s[i]),
    ensures
        s.filter(pred) == Seq::<A>::empty(),
    decreases s.len(),
{
    reveal(Seq::filter);
    if s.len() > 0 {
        lemma_filter_none(s.drop_last(), pred);
    }
}

/// Putting `x` before the first entry that does not come before it keeps a
/// stable sort, of the given entries with `x` in front.
proof fn lemma_insert_keeps_sort(out: Seq<EntryView>, done: Seq<EntryView>, x: EntryView, p: int)
    requires
        is_stable_sort(out, done),
        0 <= p <= out.len(),
        forall|q: int| 0 <= q < p ==> lex_lt((#[trigger] out[q]).sort_key, x.sort_key),
        p < out.len() ==> lex_le(x.sort_key, out[p].sort_key),
    ensures
        is_stable_sort(out.insert(p, x), seq![x] + done),
{
    let next = out.insert(p, x);
    assert forall|i: int, j: int| 0 <= i < j < next.len() implies lex_le(
        next[i].sort_key,
        next[j].sort_key,
    ) by {
        if j < p {
            assert(next[i] == out[i] && next[j] == out[j]);
        } else if j == p {
            assert(next[i] == out[i]);
            lemma_lex_asymmetric(out[i].sort_key, x.sort_key);
        } else if i < p {
            assert(next[i] == out[i] && next[j] == out[j - 1]);
        } else if i == p {
            assert(next[j] == out[j - 1]);
            if j - 1 > p {
                assert(lex_le(out[p].sort_key, out[j - 1].sort_key));
                lemma_lex_le_transitive(x.sort_key, out[p].sort_key, out[j - 1].sort_key);
            }
        } else {
            assert(next[i] == out[i - 1] && next[j] == out[j - 1]);
        }
    }
    assert forall|key: Seq<char>| #[trigger] with_key(next, key) == with_key(seq![x] + done, key) by {
        let pred = |e: EntryView| e.sort_key == key;
        lemma_filter_insert(out, p, x, pred);
        lemma_filter_one(x, pred);
        Seq::filter_distributes_over_add(seq![x], done, pred);
        assert(with_key(out, key) == with_key(done, key));
        if x.sort_key == key {
            assert forall|q: int| 0 <= q < out.take(p).len() implies !pred(
                #[trigger] out.take(p)[q],
            ) by {
                assert(out.take(p)[q] == out[q]);
                lemma_lex_irreflexive(key);
            }
            lemma_filter_none(out.take(p), pred);
            assert(with_key(next, key) =~= seq![x] + with_key(out, key));
        } else {
            assert(with_key(next, key) =~= with_key(out, key));
            assert(seq![x].filter(pred) + done.filter(pred) =~= done.filter(pred));
        }
    }
}

/// Two sequences in ascending order that hold, for each key, the same entries
/// in the same order are the same sequence.
proof fn lemma_sorted_same(a: Seq<EntryView>, b: Seq<EntryView>)
    requires
        sorted_by_key(a),
        sorted_by_key(b),
        forall|key: Seq<char>| #[trigger] with_key(a, key) == with_key(b, key),
    ensures
        a == b,
    decreases a.len() + b.len(),
{
    reveal(Seq::filter);
    if a.len() == 0 && b.len() == 0 {
        assert(a =~= b);
    } else if a.len() == 0 {
        assert(with_key(a, b.last().sort_key) == with_key(b, b.last().sort_key));
    } else if b.len() == 0 {
        assert(with_key(a, a.last().sort_key) == with_key(b, a.last().sort_key));
    } else {
        let ka = a.last().sort_key;
        let kb = b.last().sort_key;
        lemma_last_key_not_less(a, b);
        lemma_last_key_not_less(b, a);
        lemma_lex_total(ka, kb);
        assert(ka == kb);
        let a0 = a.drop_last();
        let b0 = b.drop_last();
        assert(with_key(a, ka) == with_key(b, ka));
        assert(with_key(a, ka) == with_key(a0, ka).push(a.last()));
        assert(with_key(b, ka) == with_key(b0, ka).push(b.last()));
        assert(a.last() == with_key(a, ka).last());
        assert(b.last() == with_key(b, ka).last());
        assert(with_key(a0, ka) =~= with_key(a, ka).drop_last());
        assert(with_key(b0, ka) =~= with_key(b, ka).drop_last());
        assert forall|key: Seq<char>| #[trigger] with_key(a0, key) == with_key(b0, key) by {
            assert(with_key(a, key) == with_key(b, key));
        }
        assert forall|i: int, j: int| 0 <= i < j < a0.len() implies lex_le(
            a0[i].sort_key,
            a0[j].sort_key,
        ) by {
            assert(a0[i] == a[i] && a0[j] == a[j]);
        }
        assert forall|i: int, j: int| 0 <= i < j < b0.len() implies lex_le(
            b0[i].sort_key,
            b0[j].sort_key,
        ) by {
            assert(b0[i] == b[i] && b0[j] == b[j]);
        }
        lemma_sorted_same(a0, b0);
        assert(a =~= a0.push(a.last()));
        assert(b =~= b0.push(b.last()));
    }
}

/// Where `b` holds every keyed selection of `a`, the last key of `a` does not
/// come after the last key of `b`.
proof fn lemma_last_key_not_less(a: Seq<EntryView>, b: Seq<EntryView>)
    requires
        a.len() > 0,
        b.len() > 0,
        sorted_by_key(b),
        forall|key: Seq<char>| #[trigger] with_key(a, key) == with_key(b, key),
    ensures
        lex_le(a.last().sort_key, b.last().sort_key),
{
    reveal(Seq::filter);
    let ka = a.last().sort_key;
    let pred = |e: EntryView| e.sort_key == ka;
    assert(with_key(a, ka) == with_key(b, ka));
    assert(with_key(a, ka) == with_key(a.drop_last(), ka).push(a.last()));
    let found = b.filter(pred);
    assert(found.last() == a.last());
    assert(found.contains(a.last()));
    b.lemma_filter_contains_rev(pred, a.last());
    let j = choose|j: int| 0 <= j < b.len() && b[j] == a.last();
    if j < b.len() - 1 {
        assert(lex_le(b[j].sort_key, b[b.len() - 1].sort_key));
    } else {
        lemma_lex_irreflexive(ka);
    }
}

/// Sorting has one result: two stable sorts of the same entries are the
/// same sequence.
pub proof fn lemma_stable_sort_unique(given: Seq<EntryView>, a: Seq<EntryView>, b: Seq<EntryView>)
    requires
        is_stable_sort(a, given),
        is_stable_sort(b, given),
    ensures
        a == b,
{
    assert forall|key: Seq<char>| #[trigger] with_key(a, key) == with_key(b, key) by {
        assert(with_key(b, key) == with_key(given, key));
    }
    lemma_sorted_same(a, b);
}

/// How often an element occurs in a selection: as often as in the whole
/// where it passes, and not at all where it does not.
proof fn lemma_filter_count<A>(s: Seq<A>, pred: spec_fn(A) -> bool, x: A)
    ensures
        s.filter(pred).to_multiset().count(x) == (if pred(x) {
            s.to_multiset().count(x)
        } else {
            0
        }),
    decreases s.len(),
{
    broadcast use vstd::seq_lib::group_to_multiset_ensures;

    reveal(Seq::filter);
    if s.len() == 0 {
        s.to_multiset_ensures();
        assert(s.to_multiset().count(x) == 0) by {
            if s.to_multiset().count(x) > 0 {
                assert(s.contains(x));
            }
        }
    } else {
        lemma_filter_count(s.drop_last(), pred, x);
        assert(s =~= s.drop_last().push(s.last()));
    }
}

/// A stable sort holds the given entries, each as often as it was given.
pub proof fn lemma_stable_sort_permutes(sorted: Seq<EntryView>, given: Seq<EntryView>)
    requires
        is_stable_sort(sorted, given),
    ensures
        sorted.to_multiset() == given.to_multiset(),
        sorted.len() == given.len(),
{
    broadcast use vstd::seq_lib::group_to_multiset_ensures;

    assert forall|x: EntryView| sorted.to_multiset().count(x) == given.to_multiset().count(x) by {
        let pred = |e: EntryView| e.sort_key == x.sort_key;
        assert(with_key(sorted, x.sort_key) == with_key(given, x.sort_key));
        lemma_filter_count(sorted, pred, x);
        lemma_filter_count(given, pred, x);
    }
    assert(sorted.to_multiset() =~= given.to_multiset());
    assert(sorted.len() == sorted.to_multiset().len());
    assert(given.len() == given.to_multiset().len());
}

/// Among entries with distinct keys, at most one has a given key.
proof fn lemma_distinct_at_most_one(s: Seq<EntryView>, key: Seq<char>)
    requires
        distinct_keys(s),
    ensures
        with_key(s, key).len() <= 1,
    decreases s.len(),
{
    reveal(Seq::filter);
    if s.len() > 0 {
        let s0 = s.drop_last();
        let pred = |e: EntryView| e.sort_key == key;
        assert forall|i: int, j: int| 0 <= i < j < s0.len() implies s0[i].sort_key
            != s0[j].sort_key by {
            assert(s0[i] == s[i] && s0[j] == s[j]);
        }
        if s.last().sort_key == key {
            assert forall|i: int| 0 <= i < s0.len() implies !pred(#[trigger] s0[i]) by {
                assert(s0[i] == s[i]);
                assert(s[i].sort_key != s[s.len() - 1].sort_key);
            }
            lemma_filter_none(s0, pred);
        } else {
            lemma_distinct_at_most_one(s0, key);
        }
    }
}

/// The order in which entries are found does not show in the sorted listing
/// where no two of them have the same sort key: the same entries, found in
/// two orders, sort to the same sequence.
pub proof fn lemma_sort_ignores_given_order(
    first: Seq<EntryView>,
    second: Seq<EntryView>,
    a: Seq<EntryView>,
    b: Seq<EntryView>,
)
    requires
        first.to_multiset() == second.to_multiset(),
        distinct_keys(first),
        is_stable_sort(a, first),
        is_stable_sort(b, second),
    ensures
        a == b,
{
    broadcast use vstd::seq_lib::group_to_multiset_ensures;

    assert forall|key: Seq<char>| #[trigger] with_key(a, key) == with_key(b, key) by {
        let pred = |e: EntryView| e.sort_key == key;
        let f = with_key(first, key);
        let g = with_key(second, key);
        assert(with_key(a, key) == f);
        assert(with_key(b, key) == g);
        assert forall|x: EntryView| f.to_multiset().count(x) == g.to_multiset().count(x) by {
            lemma_filter_count(first, pred, x);
            lemma_filter_count(second, pred, x);
        }
        assert(f.to_multiset() =~= g.to_multiset());
        assert(f.len() == g.len()) by {
            assert(f.len() == f.to_multiset().len());
            assert(g.len() == g.to_multiset().len());
        }
        lemma_distinct_at_most_one(first, key);
        if f.len() == 1 {
            assert(f.contains(f[0]));
            assert(g.to_multiset().count(f[0]) > 0);
            assert(g.contains(f[0]));
        }
        assert(f =~= g);
    }
    lemma_sorted_same(a, b);
}

/// The values of a vector with an entry put in.
proof fn lemma_views_insert(s: Seq<DirectoryEntry>, p: int, x: DirectoryEntry)
    requires
        0 <= p <= s.len(),
    ensures
        entry_views(s.insert(p, x)) == entry_views(s).insert(p, x@),
{
    assert(entry_views(s.insert(p, x)) =~= entry_views(s).insert(p, x@));
}

/// The entries in ascending order of their sort keys, entries with the same
/// key in the order in which they were given.
pub fn sort_entries(entries: Vec<DirectoryEntry>) -> (sorted: Vec<DirectoryEntry>)
    ensures
        is_stable_sort(entry_views(sorted@), entry_views(entries@)),
        entry_views(sorted@) == stable_sort(entry_views(entries@)),
        sorted@.len() == entries@.len(),
{
    let ghost given = entry_views(entries@);
    let mut rest = entries;
    let mut out: Vec<DirectoryEntry> = Vec::new();
    let mut keys: Vec<Vec<char>> = Vec::new();
    proof {
        assert(given.skip(rest@.len() as int) =~= Seq::<EntryView>::empty());
        assert(entry_views(out@) =~= Seq::<EntryView>::empty());
    }
    while rest.len() > 0
        invariant
            entry_views(rest@) == given.take(rest@.len() as int),
            rest@.len() <= given.len(),
            is_stable_sort(entry_views(out@), given.skip(rest@.len() as int)),
            out@.len() + rest@.len() == given.len(),
            keys@.len() == out@.len(),
            forall|i: int| 0 <= i < out@.len() ==> (#[trigger] keys@[i])@ == out@[i].sort_key@,
        decreases rest@.len(),
    {
        let ghost before = entry_views(rest@);
        let ghost done = given.skip(rest@.len() as int);
        let x = rest.pop().unwrap();
        let key = chars_of(x.sort_key.as_str());
        let mut p: usize = 0;
        while p < out.len() && chars_lt(&keys[p], &key)
            invariant
                p <= out@.len(),
                keys@.len() == out@.len(),
                forall|i: int| 0 <= i < out@.len() ==> (#[trigger] keys@[i])@ == out@[i].sort_key@,
                forall|q: int|
                    0 <= q < p ==> lex_lt((#[trigger] entry_views(out@)[q]).sort_key, key@),
            decreases out@.len() - p,
        {
            p += 1;
        }
        proof {
            assert(x@ == before[rest@.len() as int]);
            assert(before[rest@.len() as int] == given[rest@.len() as int]);
            assert(seq![x@] + done =~= given.skip(rest@.len() as int));
            assert(entry_views(rest@) =~= given.take(rest@.len() as int));
            if p < out@.len() {
                assert(entry_views(out@)[p as int].sort_key == keys@[p as int]@);
            }
            lemma_insert_keeps_sort(entry_views(out@), done, x@, p as int);
            lemma_views_insert(out@, p as int, x);
        }
        out.insert(p, x);
        keys.insert(p, key);
    }
    proof {
        assert(given.skip(0) =~= given);
        lemma_stable_sort_unique(given, entry_views(out@), stable_sort(given));
    }
    out
}

} // verus!
