//! Grouping: the entries of one directory, parted by category.

use crate::category::{key_lt, lemma_key_order, CategoryKey, Extension};
use crate::entry::{entry_category, entry_views, DirectoryEntry, EntryView};
use crate::sort::{is_stable_sort, lemma_stable_sort_permutes, lemma_stable_sort_unique, sort_entries};
use vstd::prelude::*;

verus! {

/// The entries of one category, in the order in which they are listed.
#[derive(Debug, Clone, PartialEq, Eq)]
pub struct Group {
    pub key: Extension,
    pub entries: Vec<DirectoryEntry>,
}

/// The mathematical value of a `Group`.
pub struct GroupView {
    pub key: CategoryKey,
    pub entries: Seq<EntryView>,
}

impl View for Group {
    type V = GroupView;

    open spec fn view(&self) -> GroupView {
        GroupView { key: self.key@, entries: entry_views(self.entries@) }
    }
}

/// The values of a sequence of groups.
pub open spec fn group_views(groups: Seq<Group>) -> Seq<GroupView> {
    groups.map_values(|g: Group| g@)
}

/// The entries of the given category, in the order in which they were found.
pub open spec fn in_category(entries: Seq<EntryView>, key: CategoryKey) -> Seq<EntryView> {
    entries.filter(|e: EntryView| entry_category(e) == key)
}

/// Whether the groups stand in the listing order of their categories, which
/// leaves no category to two groups.
pub open spec fn ordered_by_key(groups: Seq<GroupView>) -> bool {
    forall|g: int, h: int|
        #![trigger groups[g], groups[h]]
        0 <= g < h < groups.len() ==> key_lt(groups[g].key, groups[h].key)
}

/// Whether one of the groups is of the given category.
pub open spec fn has_key(groups: Seq<GroupView>, key: CategoryKey) -> bool {
    exists|g: int| 0 <= g < groups.len() && (#[trigger] groups[g]).key == key
}

/// Whether the groups are the entries parted by category: the groups stand
/// in the listing order, each holds all entries of its category and at least
/// one, sorted by sort key with ties in the order found, and no entry is
/// without a group.
pub open spec fn is_grouping(groups: Seq<GroupView>, entries: Seq<EntryView>) -> bool {
    &&& ordered_by_key(groups)
    &&& forall|g: int|
        0 <= g < groups.len() ==> (#[trigger] groups[g]).entries.len() > 0 && is_stable_sort(
            groups[g].entries,
            in_category(entries, groups[g].key),
        )
    &&& forall|i: int|
        0 <= i < entries.len() ==> has_key(groups, entry_category(#[trigger] entries[i]))
}

/// The entries parted by category. There is one such sequence of groups,
/// which `group` computes.
pub open spec fn grouping(entries: Seq<EntryView>) -> Seq<GroupView> {
    choose|groups: Seq<GroupView>| is_grouping(groups, entries)
}

/// As `is_grouping`, with each group in the order found.
spec fn is_bucketing(groups: Seq<GroupView>, entries: Seq<EntryView>) -> bool {
    &&& ordered_by_key(groups)
    &&& forall|g: int|
        0 <= g < groups.len() ==> (#[trigger] groups[g]).entries.len() > 0 && groups[g].entries
            == in_category(entries, groups[g].key)
    &&& forall|i: int|
        0 <= i < entries.len() ==> has_key(groups, entry_category(#[trigger] entries[i]))
}

/// The entries of a category among entries with one more at the end.
proof fn lemma_in_category_push(s: Seq<EntryView>, x: EntryView, key: CategoryKey)
    ensures
        in_category(s.push(x), key) == (if entry_category(x) == key {
            in_category(s, key).push(x)
        } else {
            in_category(s, key)
        }),
{
    reveal(Seq::filter);
    assert(s.push(x).drop_last() =~= s);
}

/// The groups with one more entry: added to the group at `at` where that
/// group is of the entry's category, and put there as a group of its own
/// otherwise.
spec fn with_entry(groups: Seq<GroupView>, x: EntryView, at: int) -> Seq<GroupView> {
    if at < groups.len() && groups[at].key == entry_category(x) {
        groups.update(at, GroupView { key: groups[at].key, entries: groups[at].entries.push(x) })
    } else {
        groups.insert(at, GroupView { key: entry_category(x), entries: seq![x] })
    }
}

/// Adding an entry to the group of its category, or as a new group where the
/// order has its place, keeps the parting.
proof fn lemma_bucket_step(
    groups: Seq<GroupView>,
    prefix: Seq<EntryView>,
    x: EntryView,
    at: int,
    next: Seq<GroupView>,
)
    requires
        is_bucketing(groups, prefix),
        0 <= at <= groups.len(),
        forall|g: int| 0 <= g < at ==> key_lt((#[trigger] groups[g]).key, entry_category(x)),
        at < groups.len() ==> !key_lt(groups[at].key, entry_category(x)),
        next == with_entry(groups, x, at),
    ensures
        is_bucketing(next, prefix.push(x)),
{
    let key = entry_category(x);
    let all = prefix.push(x);
    let joins = at < groups.len() && groups[at].key == key;
    assert forall|g: int, h: int| 0 <= g < h < next.len() implies key_lt(
        next[g].key,
        next[h].key,
    ) by {
        if joins {
            assert(next[g].key == groups[g].key && next[h].key == groups[h].key);
        } else {
            if h < at {
                assert(next[g] == groups[g] && next[h] == groups[h]);
            } else if h == at {
                assert(next[g] == groups[g]);
            } else if g < at {
                assert(next[g] == groups[g] && next[h] == groups[h - 1]);
            } else if g == at {
                assert(next[h] == groups[h - 1]);
                lemma_key_order(key, groups[at].key, groups[h - 1].key);
                if h - 1 > at {
                    assert(key_lt(groups[at].key, groups[h - 1].key));
                }
            } else {
                assert(next[g] == groups[g - 1] && next[h] == groups[h - 1]);
            }
        }
    }
    assert forall|g: int| 0 <= g < next.len() implies (#[trigger] next[g]).entries.len() > 0
        && next[g].entries == in_category(all, next[g].key) by {
        lemma_in_category_push(prefix, x, next[g].key);
        if joins {
            if g != at {
                assert(next[g] == groups[g]);
                if g < at {
                    lemma_key_order(groups[g].key, key, key);
                } else {
                    assert(key_lt(groups[at].key, groups[g].key));
                    lemma_key_order(groups[g].key, key, key);
                }
            }
        } else {
            if g < at {
                assert(next[g] == groups[g]);
                lemma_key_order(groups[g].key, key, key);
            } else if g == at {
                assert(in_category(prefix, key) =~= Seq::<EntryView>::empty()) by {
                    assert forall|h: int| 0 <= h < groups.len() implies (#[trigger] groups[h]).key
                        != key by {
                        if h < at {
                            lemma_key_order(groups[h].key, key, key);
                        } else if h > at {
                            assert(key_lt(groups[at].key, groups[h].key));
                            lemma_key_order(key, groups[at].key, groups[h].key);
                            lemma_key_order(groups[h].key, key, key);
                        }
                    }
                    lemma_absent_category(groups, prefix, key);
                }
                assert(Seq::<EntryView>::empty().push(x) =~= seq![x]);
            } else {
                assert(next[g] == groups[g - 1]);
                lemma_key_order(key, groups[at].key, groups[g - 1].key);
                if g - 1 > at {
                    assert(key_lt(groups[at].key, groups[g - 1].key));
                }
                lemma_key_order(groups[g - 1].key, key, key);
            }
        }
    }
    assert forall|i: int| 0 <= i < all.len() implies has_key(
        next,
        entry_category(#[trigger] all[i]),
    ) by {
        if i < prefix.len() {
            assert(all[i] == prefix[i]);
            assert(has_key(groups, entry_category(prefix[i])));
            let g = choose|g: int|
                0 <= g < groups.len() && (#[trigger] groups[g]).key == entry_category(prefix[i]);
            if joins {
                assert(next[g].key == groups[g].key);
            } else if g < at {
                assert(next[g] == groups[g]);
            } else {
                assert(next[g + 1] == groups[g]);
            }
        } else {
            assert(next[at].key == key);
        }
    }
}

/// A category that no group has holds no entry.
proof fn lemma_absent_category(groups: Seq<GroupView>, entries: Seq<EntryView>, key: CategoryKey)
    requires
        is_bucketing(groups, entries),
        !has_key(groups, key),
    ensures
        in_category(entries, key).len() == 0,
{
    let pred = |e: EntryView| entry_category(e) == key;
    if entries.filter(pred).len() > 0 {
        let e = entries.filter(pred)[0];
        entries.lemma_filter_pred(pred, 0);
        assert(entries.filter(pred).contains(e));
        entries.lemma_filter_contains_rev(pred, e);
        let i = choose|i: int| 0 <= i < entries.len() && entries[i] == e;
        assert(has_key(groups, entry_category(entries[i])));
    }
}

/// The entries parted by category, each group in the order found.
fn bucket(entries: Vec<DirectoryEntry>) -> (groups: Vec<Group>)
    ensures
        is_bucketing(group_views(groups@), entry_views(entries@)),
{
    let ghost given = entry_views(entries@);
    let mut groups: Vec<Group> = Vec::new();
    for x in it: entries
        invariant
            it.seq() == entries@,
            given == entry_views(entries@),
            is_bucketing(group_views(groups@), given.take(it.index() as int)),
    {
        let key = Extension::from(&x);
        let mut at: usize = 0;
        while at < groups.len() && groups[at].key.precedes(&key)
            invariant
                at <= groups@.len(),
                forall|g: int|
                    0 <= g < at ==> key_lt((#[trigger] group_views(groups@)[g]).key, key@),
            decreases groups@.len() - at,
        {
            at += 1;
        }
        let ghost before = group_views(groups@);
        let ghost prefix = given.take(it.index() as int);
        proof {
            assert(0 <= it.index() < entries@.len());
            assert(x == entries@[it.index() as int]);
            assert(given.take(it.index() + 1) =~= prefix.push(x@));
            assert(key@ == entry_category(x@));
            if at < groups@.len() {
                assert(before[at as int].key == groups@[at as int].key@);
            }
        }
        if at < groups.len() && groups[at].key.same(&key) {
            let mut found = groups.remove(at);
            let ghost next = before.update(
                at as int,
                GroupView { key: before[at as int].key, entries: before[at as int].entries.push(x@) },
            );
            assert(found@ == before[at as int]);
            found.entries.push(x);
            assert(entry_views(found.entries@) =~= before[at as int].entries.push(x@));
            groups.insert(at, found);
            proof {
                assert(group_views(groups@) =~= next);
                lemma_bucket_step(before, prefix, x@, at as int, next);
            }
        } else {
            let ghost next = before.insert(
                at as int,
                GroupView { key: key@, entries: seq![x@] },
            );
            let mut fresh: Vec<DirectoryEntry> = Vec::new();
            fresh.push(x);
            assert(entry_views(fresh@) =~= seq![x@]);
            groups.insert(at, Group { key, entries: fresh });
            proof {
                assert(group_views(groups@) =~= next);
                lemma_bucket_step(before, prefix, x@, at as int, next);
            }
        }
    }
    proof {
        assert(given.take(entries@.len() as int) =~= given);
    }
    groups
}

/// The entries parted by category: the groups in the listing order of their
/// categories, each holding the entries of its category sorted by sort key,
/// entries with the same key in the order in which they were found.
pub fn group(entries: Vec<DirectoryEntry>) -> (groups: Vec<Group>)
    ensures
        is_grouping(group_views(groups@), entry_views(entries@)),
        group_views(groups@) == grouping(entry_views(entries@)),
{
    let ghost given = entry_views(entries@);
    let mut groups = bucket(entries);
    let ghost buckets = group_views(groups@);
    let mut g: usize = 0;
    while g < groups.len()
        invariant
            g <= groups@.len(),
            groups@.len() == buckets.len(),
            forall|h: int|
                0 <= h < groups@.len() ==> (#[trigger] group_views(groups@)[h]).key
                    == buckets[h].key,
            forall|h: int|
                0 <= h < g ==> is_stable_sort(
                    (#[trigger] group_views(groups@)[h]).entries,
                    buckets[h].entries,
                ),
            forall|h: int|
                g <= h < groups@.len() ==> (#[trigger] group_views(groups@)[h]) == buckets[h],
        decreases groups@.len() - g,
    {
        let ghost before = group_views(groups@);
        let found = groups.remove(g);
        let sorted = sort_entries(found.entries);
        let ghost next = before.update(
            g as int,
            GroupView { key: before[g as int].key, entries: entry_views(sorted@) },
        );
        groups.insert(g, Group { key: found.key, entries: sorted });
        proof {
            assert(group_views(groups@) =~= next);
            assert forall|h: int| 0 <= h < g + 1 implies is_stable_sort(
                (#[trigger] group_views(groups@)[h]).entries,
                buckets[h].entries,
            ) by {
                if h < g {
                    assert(next[h] == before[h]);
                }
            }
            assert forall|h: int| g + 1 <= h < groups@.len() implies (#[trigger] group_views(
                groups@,
            )[h]) == buckets[h] by {
                assert(next[h] == before[h]);
            }
            assert forall|h: int| 0 <= h < groups@.len() implies (#[trigger] group_views(
                groups@,
            )[h]).key == buckets[h].key by {
                if h != g {
                    assert(next[h] == before[h]);
                }
            }
        }
        g += 1;
    }
    proof {
        let done = group_views(groups@);
        assert forall|g: int, h: int| 0 <= g < h < done.len() implies key_lt(
            done[g].key,
            done[h].key,
        ) by {
            assert(key_lt(buckets[g].key, buckets[h].key));
        }
        assert forall|g: int| 0 <= g < done.len() implies (#[trigger] done[g]).entries.len() > 0
            && is_stable_sort(done[g].entries, in_category(given, done[g].key)) by {
            assert(buckets[g].entries.len() > 0);
            lemma_stable_sort_permutes(done[g].entries, buckets[g].entries);
        }
        assert forall|i: int| 0 <= i < given.len() implies has_key(
            done,
            entry_category(#[trigger] given[i]),
        ) by {
            assert(has_key(buckets, entry_category(given[i])));
            let g = choose|g: int|
                0 <= g < buckets.len() && (#[trigger] buckets[g]).key == entry_category(given[i]);
            assert(done[g].key == buckets[g].key);
        }
        lemma_grouping_unique(done, grouping(given), given);
    }
    groups
}

/// Whether the entry is held by the group of its category.
pub open spec fn is_member(groups: Seq<GroupView>, e: EntryView) -> bool {
    exists|g: int|
        0 <= g < groups.len() && (#[trigger] groups[g]).key == entry_category(e)
            && groups[g].entries.contains(e)
}

/// The number of entries in all the groups together.
pub open spec fn total_entries(groups: Seq<GroupView>) -> nat
    decreases groups.len(),
{
    if groups.len() == 0 {
        0
    } else {
        total_entries(groups.drop_last()) + groups.last().entries.len()
    }
}

/// Whether no two groups are of the same category.
pub open spec fn distinct_categories(groups: Seq<GroupView>) -> bool {
    forall|g: int, h: int|
        #![trigger groups[g], groups[h]]
        0 <= g < h < groups.len() ==> groups[g].key != groups[h].key
}

/// How many of the entries are of the category of one of the groups, an
/// entry counting once for each group of its category.
spec fn counted(groups: Seq<GroupView>, entries: Seq<EntryView>) -> nat
    decreases groups.len(),
{
    if groups.len() == 0 {
        0
    } else {
        counted(groups.drop_last(), entries) + in_category(entries, groups.last().key).len()
    }
}

/// Groups that each hold as many entries as are of their category hold as
/// many together as are counted.
proof fn lemma_total_is_counted(groups: Seq<GroupView>, entries: Seq<EntryView>)
    requires
        forall|g: int|
            0 <= g < groups.len() ==> (#[trigger] groups[g]).entries.len() == in_category(
                entries,
                groups[g].key,
            ).len(),
    ensures
        total_entries(groups) == counted(groups, entries),
    decreases groups.len(),
{
    if groups.len() > 0 {
        let rest = groups.drop_last();
        assert forall|g: int| 0 <= g < rest.len() implies (#[trigger] rest[g]).entries.len()
            == in_category(entries, rest[g].key).len() by {
            assert(rest[g] == groups[g]);
        }
        lemma_total_is_counted(rest, entries);
        assert(groups.last() == groups[groups.len() - 1]);
    }
}

/// One more entry is counted once where a group is of its category, and not
/// at all where none is.
proof fn lemma_counted_push(groups: Seq<GroupView>, entries: Seq<EntryView>, x: EntryView)
    requires
        distinct_categories(groups),
    ensures
        counted(groups, entries.push(x)) == counted(groups, entries) + (if has_key(
            groups,
            entry_category(x),
        ) {
            1nat
        } else {
            0nat
        }),
    decreases groups.len(),
{
    let key = entry_category(x);
    if groups.len() > 0 {
        let rest = groups.drop_last();
        let last = groups.last();
        assert forall|g: int, h: int| 0 <= g < h < rest.len() implies rest[g].key
            != rest[h].key by {
            assert(rest[g] == groups[g] && rest[h] == groups[h]);
        }
        lemma_counted_push(rest, entries, x);
        lemma_in_category_push(entries, x, last.key);
        if last.key == key {
            assert(groups[groups.len() - 1].key == key);
            assert(!has_key(rest, key)) by {
                if has_key(rest, key) {
                    let g = choose|g: int| 0 <= g < rest.len() && (#[trigger] rest[g]).key == key;
                    assert(rest[g] == groups[g]);
                    assert(groups[g].key != groups[groups.len() - 1].key);
                }
            }
        } else {
            if has_key(rest, key) {
                let g = choose|g: int| 0 <= g < rest.len() && (#[trigger] rest[g]).key == key;
                assert(groups[g].key == key);
            }
            if has_key(groups, key) {
                let g = choose|g: int| 0 <= g < groups.len() && (#[trigger] groups[g]).key == key;
                assert(rest[g].key == key);
            }
        }
    }
}

/// Groups of distinct categories, one for each entry, count each entry once.
proof fn lemma_counted_all(groups: Seq<GroupView>, entries: Seq<EntryView>)
    requires
        distinct_categories(groups),
        forall|i: int|
            0 <= i < entries.len() ==> has_key(groups, entry_category(#[trigger] entries[i])),
    ensures
        counted(groups, entries) == entries.len(),
    decreases entries.len(),
{
    if entries.len() == 0 {
        lemma_counted_none(groups, entries);
    } else {
        let rest = entries.drop_last();
        assert forall|i: int| 0 <= i < rest.len() implies has_key(
            groups,
            entry_category(#[trigger] rest[i]),
        ) by {
            assert(rest[i] == entries[i]);
        }
        lemma_counted_all(groups, rest);
        lemma_counted_push(groups, rest, entries.last());
        assert(entries =~= rest.push(entries.last()));
        assert(entries.last() == entries[entries.len() - 1]);
    }
}

/// Of no entries none is counted.
proof fn lemma_counted_none(groups: Seq<GroupView>, entries: Seq<EntryView>)
    requires
        entries.len() == 0,
    ensures
        counted(groups, entries) == 0,
    decreases groups.len(),
{
    reveal(Seq::filter);
    if groups.len() > 0 {
        lemma_counted_none(groups.drop_last(), entries);
    }
}

/// The groups part the entries: no category has two groups and every member
/// of a group is of the group's category, so no entry is in two groups; every
/// entry is in the group of its category; and the groups together hold as
/// many entries as there are.
pub proof fn lemma_groups_partition(groups: Seq<GroupView>, entries: Seq<EntryView>)
    requires
        is_grouping(groups, entries),
    ensures
        distinct_categories(groups),
        forall|g: int, j: int|
            0 <= g < groups.len() && 0 <= j < groups[g].entries.len() ==> entry_category(
                #[trigger] groups[g].entries[j],
            ) == groups[g].key,
        forall|i: int| 0 <= i < entries.len() ==> is_member(groups, #[trigger] entries[i]),
        total_entries(groups) == entries.len(),
{
    broadcast use vstd::seq_lib::group_to_multiset_ensures;

    assert forall|g: int, h: int| 0 <= g < h < groups.len() implies groups[g].key
        != groups[h].key by {
        lemma_key_order(groups[g].key, groups[h].key, groups[h].key);
    }
    assert forall|g: int, j: int|
        0 <= g < groups.len() && 0 <= j < groups[g].entries.len() implies entry_category(
        #[trigger] groups[g].entries[j],
    ) == groups[g].key by {
        let e = groups[g].entries[j];
        let pred = |e: EntryView| entry_category(e) == groups[g].key;
        let found = entries.filter(pred);
        lemma_stable_sort_permutes(groups[g].entries, found);
        assert(groups[g].entries.contains(e));
        assert(found.to_multiset().count(e) > 0);
        assert(found.contains(e));
        let k = choose|k: int| 0 <= k < found.len() && found[k] == e;
        entries.lemma_filter_pred(pred, k);
    }
    assert forall|i: int| 0 <= i < entries.len() implies is_member(
        groups,
        #[trigger] entries[i],
    ) by {
        let key = entry_category(entries[i]);
        assert(has_key(groups, entry_category(entries[i])));
        let g = choose|g: int| 0 <= g < groups.len() && (#[trigger] groups[g]).key == key;
        let pred = |e: EntryView| entry_category(e) == key;
        let found = entries.filter(pred);
        entries.lemma_filter_contains(pred, i);
        lemma_stable_sort_permutes(groups[g].entries, found);
        assert(found.to_multiset().count(entries[i]) > 0);
        assert(groups[g].entries.contains(entries[i]));
    }
    assert forall|g: int| 0 <= g < groups.len() implies (#[trigger] groups[g]).entries.len()
        == in_category(entries, groups[g].key).len() by {
        lemma_stable_sort_permutes(groups[g].entries, in_category(entries, groups[g].key));
    }
    lemma_total_is_counted(groups, entries);
    lemma_counted_all(groups, entries);
}

/// Groups in listing order that are of the same categories are of the same
/// categories one by one.
proof fn lemma_same_keys(a: Seq<GroupView>, b: Seq<GroupView>)
    requires
        ordered_by_key(a),
        ordered_by_key(b),
        forall|key: CategoryKey| has_key(a, key) <==> has_key(b, key),
    ensures
        a.len() == b.len(),
        forall|g: int| 0 <= g < a.len() ==> (#[trigger] a[g]).key == b[g].key,
    decreases a.len() + b.len(),
{
    if a.len() == 0 {
        if b.len() > 0 {
            assert(has_key(b, b[0].key));
            let g = choose|g: int| 0 <= g < a.len() && (#[trigger] a[g]).key == b[0].key;
        }
    } else if b.len() == 0 {
        assert(has_key(a, a[0].key));
        let g = choose|g: int| 0 <= g < b.len() && (#[trigger] b[g]).key == a[0].key;
    } else {
        let la = a.len() - 1;
        let lb = b.len() - 1;
        assert(has_key(a, a[la].key));
        assert(has_key(b, b[lb].key));
        let ga = choose|g: int| 0 <= g < a.len() && (#[trigger] a[g]).key == b[lb].key;
        let gb = choose|g: int| 0 <= g < b.len() && (#[trigger] b[g]).key == a[la].key;
        if ga < la {
            assert(key_lt(a[ga].key, a[la].key));
        }
        if gb < lb {
            assert(key_lt(b[gb].key, b[lb].key));
        }
        lemma_key_order(a[la].key, b[lb].key, b[lb].key);
        assert(a[la].key == b[lb].key);
        let a0 = a.drop_last();
        let b0 = b.drop_last();
        assert forall|g: int, h: int| 0 <= g < h < a0.len() implies key_lt(
            a0[g].key,
            a0[h].key,
        ) by {
            assert(a0[g] == a[g] && a0[h] == a[h]);
        }
        assert forall|g: int, h: int| 0 <= g < h < b0.len() implies key_lt(
            b0[g].key,
            b0[h].key,
        ) by {
            assert(b0[g] == b[g] && b0[h] == b[h]);
        }
        assert forall|key: CategoryKey| has_key(a0, key) <==> has_key(b0, key) by {
            lemma_key_order(key, key, key);
            if has_key(a0, key) {
                let g = choose|g: int| 0 <= g < a0.len() && (#[trigger] a0[g]).key == key;
                assert(a[g].key == key);
                assert(key_lt(a[g].key, a[la].key));
                assert(has_key(a, key));
                let h = choose|h: int| 0 <= h < b.len() && (#[trigger] b[h]).key == key;
                assert(b0[h].key == key);
            }
            if has_key(b0, key) {
                let g = choose|g: int| 0 <= g < b0.len() && (#[trigger] b0[g]).key == key;
                assert(b[g].key == key);
                assert(key_lt(b[g].key, b[lb].key));
                assert(has_key(b, key));
                let h = choose|h: int| 0 <= h < a.len() && (#[trigger] a[h]).key == key;
                assert(a0[h].key == key);
            }
        }
        lemma_same_keys(a0, b0);
        assert forall|g: int| 0 <= g < a.len() implies (#[trigger] a[g]).key == b[g].key by {
            if g < la {
                assert(a0[g] == a[g] && b0[g] == b[g]);
            }
        }
    }
}

/// A group of the given category is there just where an entry is of it.
proof fn lemma_key_iff_entry(groups: Seq<GroupView>, entries: Seq<EntryView>, key: CategoryKey)
    requires
        is_grouping(groups, entries),
    ensures
        has_key(groups, key) <==> in_category(entries, key).len() > 0,
{
    let pred = |e: EntryView| entry_category(e) == key;
    if has_key(groups, key) {
        let g = choose|g: int| 0 <= g < groups.len() && (#[trigger] groups[g]).key == key;
        lemma_stable_sort_permutes(groups[g].entries, in_category(entries, key));
    }
    if entries.filter(pred).len() > 0 {
        let e = entries.filter(pred)[0];
        entries.lemma_filter_pred(pred, 0);
        assert(entries.filter(pred).contains(e));
        entries.lemma_filter_contains_rev(pred, e);
        let i = choose|i: int| 0 <= i < entries.len() && entries[i] == e;
        assert(has_key(groups, entry_category(entries[i])));
    }
}

/// The entries can be parted in one way only: two groupings of the same
/// entries are the same groups.
pub proof fn lemma_grouping_unique(
    a: Seq<GroupView>,
    b: Seq<GroupView>,
    entries: Seq<EntryView>,
)
    requires
        is_grouping(a, entries),
        is_grouping(b, entries),
    ensures
        a == b,
{
    assert forall|key: CategoryKey| has_key(a, key) <==> has_key(b, key) by {
        lemma_key_iff_entry(a, entries, key);
        lemma_key_iff_entry(b, entries, key);
    }
    lemma_same_keys(a, b);
    assert forall|g: int| 0 <= g < a.len() implies a[g] == b[g] by {
        assert(a[g].key == b[g].key);
        lemma_stable_sort_unique(in_category(entries, a[g].key), a[g].entries, b[g].entries);
    }
    assert(a =~= b);
}

} // verus!
