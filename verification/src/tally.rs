//! Totals by key: how many items a key has and what their values add up to.

use crate::arith;
use crate::text;
use crate::text::{is_before, same_text};
use vstd::prelude::*;

verus! {

/// One key with its total and its number of items.
#[derive(Debug, Clone)]
pub struct Group {
    pub key: String,
    pub seconds: i64,
    pub times: i64,
}

/// A group, by value.
#[verifier::ext_equal]
pub struct GroupView {
    pub key: Seq<char>,
    pub seconds: i64,
    pub times: i64,
}

impl View for Group {
    type V = GroupView;

    open spec fn view(&self) -> GroupView {
        GroupView { key: self.key@, seconds: self.seconds, times: self.times }
    }
}

/// The values of a list of groups.
pub open spec fn group_views(s: Seq<Group>) -> Seq<GroupView> {
    s.map_values(|g: Group| g@)
}

/// A keyed value.
#[verifier::ext_equal]
pub struct Item {
    pub key: Seq<char>,
    pub seconds: i64,
}

/// The number of groups at the front of the list whose key comes before `key`.
pub open spec fn slot(groups: Seq<GroupView>, key: Seq<char>) -> int
    decreases groups.len(),
{
    if groups.len() == 0 || text::before(groups.last().key, key) {
        groups.len() as int
    } else {
        slot(groups.drop_last(), key)
    }
}

/// The groups after one more item, or `None` where its group's total leaves the range of `i64`.
pub open spec fn added(groups: Seq<GroupView>, item: Item) -> Option<Seq<GroupView>> {
    let i = slot(groups, item.key);
    if i < groups.len() && groups[i].key == item.key {
        if arith::fits(groups[i].seconds + item.seconds) {
            Some(
                groups.update(
                    i,
                    GroupView {
                        key: item.key,
                        seconds: (groups[i].seconds + item.seconds) as i64,
                        times: (groups[i].times + 1) as i64,
                    },
                ),
            )
        } else {
            None
        }
    } else {
        Some(
            groups.insert(i, GroupView { key: item.key, seconds: item.seconds, times: 1 }),
        )
    }
}

/// The groups of a list of items, or `None` where a running total leaves the range of `i64`.
pub open spec fn tally(items: Seq<Item>) -> Option<Seq<GroupView>>
    decreases items.len(),
{
    if items.len() == 0 {
        Some(Seq::empty())
    } else {
        match tally(items.drop_last()) {
            Some(groups) => added(groups, items.last()),
            None => None,
        }
    }
}

/// The values of the items of one key, in list order.
pub open spec fn values_of(items: Seq<Item>, key: Seq<char>) -> Seq<int>
    decreases items.len(),
{
    if items.len() == 0 {
        Seq::empty()
    } else if items.last().key == key {
        values_of(items.drop_last(), key).push(items.last().seconds as int)
    } else {
        values_of(items.drop_last(), key)
    }
}

/// Whether the keys grow along the list.
pub open spec fn keys_grow(groups: Seq<GroupView>) -> bool {
    forall|i: int, j: int|
        0 <= i < j < groups.len() ==> text::before(
            #[trigger] groups[i].key,
            #[trigger] groups[j].key,
        )
}

/// Whether `groups` are the totals of `items`: one group for each key that occurs, in key order,
/// with the sum and the number of the key's values.
pub open spec fn totals(items: Seq<Item>, groups: Seq<GroupView>) -> bool {
    &&& keys_grow(groups)
    &&& forall|i: int|
        0 <= i < groups.len() ==> {
            &&& (#[trigger] groups[i]).seconds == arith::sum(values_of(items, groups[i].key))
            &&& groups[i].times == values_of(items, groups[i].key).len()
            &&& groups[i].times > 0
        }
    &&& forall|key: Seq<char>|
        (#[trigger] values_of(items, key)).len() > 0 ==> exists|i: int|
            0 <= i < groups.len() && #[trigger] groups[i].key == key
}

/// The place of a key parts the groups into those before it and the others.
pub proof fn lemma_slot(groups: Seq<GroupView>, key: Seq<char>)
    requires
        keys_grow(groups),
    ensures
        0 <= slot(groups, key) <= groups.len(),
        forall|i: int|
            0 <= i < slot(groups, key) ==> text::before(#[trigger] groups[i].key, key),
        forall|i: int|
            slot(groups, key) <= i < groups.len() ==> !text::before(#[trigger] groups[i].key, key),
    decreases groups.len(),
{
    if groups.len() == 0 {
    } else if text::before(groups.last().key, key) {
        assert forall|i: int| 0 <= i < groups.len() implies text::before(
            #[trigger] groups[i].key,
            key,
        ) by {
            if i < groups.len() - 1 {
                text::lemma_before_transitive(groups[i].key, groups.last().key, key);
            }
        }
    } else {
        let shorter = groups.drop_last();
        assert forall|i: int, j: int| 0 <= i < j < shorter.len() implies text::before(
            #[trigger] shorter[i].key,
            #[trigger] shorter[j].key,
        ) by {
            assert(text::before(groups[i].key, groups[j].key));
        }
        lemma_slot(shorter, key);
        assert forall|i: int| slot(groups, key) <= i < groups.len() implies !text::before(
            #[trigger] groups[i].key,
            key,
        ) by {
            if i < shorter.len() {
                assert(!text::before(shorter[i].key, key));
            }
        }
        assert forall|i: int| 0 <= i < slot(groups, key) implies text::before(
            #[trigger] groups[i].key,
            key,
        ) by {
            assert(text::before(shorter[i].key, key));
        }
    }
}

proof fn lemma_added(items: Seq<Item>, groups: Seq<GroupView>, item: Item)
    requires
        totals(items, groups),
        items.len() < i64::MAX,
        added(groups, item) is Some,
    ensures
        totals(items.push(item), added(groups, item)->0),
{
    let i = slot(groups, item.key);
    lemma_slot(groups, item.key);
    let after = added(groups, item)->0;
    let all = items.push(item);
    assert(all.drop_last() =~= items);
    assert forall|key: Seq<char>| #[trigger] values_of(all, key) == (if key == item.key {
        values_of(items, key).push(item.seconds as int)
    } else {
        values_of(items, key)
    }) by {}
    lemma_values_len(items, item.key);
    let old = values_of(items, item.key);
    assert(old.push(item.seconds as int).drop_last() =~= old);
    assert(arith::sum(values_of(all, item.key)) == arith::sum(old) + item.seconds);
    if i < groups.len() && groups[i].key == item.key {
        assert(after[i].key == item.key);
        assert forall|key: Seq<char>| (#[trigger] values_of(all, key)).len() > 0 implies exists|k: int|
            0 <= k < after.len() && #[trigger] after[k].key == key by {
            if key == item.key {
                assert(after[i].key == key);
            } else {
                assert(values_of(items, key).len() > 0);
                let k = choose|k: int| 0 <= k < groups.len() && #[trigger] groups[k].key == key;
                assert(after[k].key == key);
            }
        }
        assert forall|k: int| 0 <= k < after.len() implies {
            &&& (#[trigger] after[k]).seconds == arith::sum(values_of(all, after[k].key))
            &&& after[k].times == values_of(all, after[k].key).len()
            &&& after[k].times > 0
        } by {
            if k != i {
                assert(after[k] == groups[k]);
                text::lemma_before_total(groups[k].key, item.key);
                if k < i {
                    assert(text::before(groups[k].key, groups[i].key));
                } else {
                    assert(text::before(groups[i].key, groups[k].key));
                }
            }
        }
        assert forall|a: int, b: int| 0 <= a < b < after.len() implies text::before(
            #[trigger] after[a].key,
            #[trigger] after[b].key,
        ) by {
            assert(after[a].key == groups[a].key && after[b].key == groups[b].key);
        }
    } else {
        // The key is new: it occurs in no group.
        assert forall|k: int| 0 <= k < groups.len() implies #[trigger] groups[k].key != item.key by {
            text::lemma_before_total(groups[k].key, item.key);
            if k > i {
                text::lemma_before_total(groups[i].key, item.key);
                assert(text::before(item.key, groups[i].key));
                text::lemma_before_transitive(item.key, groups[i].key, groups[k].key);
            }
        }
        if old.len() > 0 {
            let k = choose|k: int| 0 <= k < groups.len() && #[trigger] groups[k].key == item.key;
            assert(false);
        }
        assert(after[i].key == item.key);
        assert forall|key: Seq<char>| (#[trigger] values_of(all, key)).len() > 0 implies exists|k: int|
            0 <= k < after.len() && #[trigger] after[k].key == key by {
            if key == item.key {
                assert(after[i].key == key);
            } else {
                assert(values_of(items, key).len() > 0);
                let k = choose|k: int| 0 <= k < groups.len() && #[trigger] groups[k].key == key;
                assert(after[if k < i { k } else { k + 1 }].key == key);
            }
        }
        assert forall|k: int| 0 <= k < after.len() implies {
            &&& (#[trigger] after[k]).seconds == arith::sum(values_of(all, after[k].key))
            &&& after[k].times == values_of(all, after[k].key).len()
            &&& after[k].times > 0
        } by {
            if k < i {
                assert(after[k] == groups[k]);
            } else if k > i {
                assert(after[k] == groups[k - 1]);
            } else {
                assert(old =~= Seq::<int>::empty());
            }
        }
        assert forall|a: int, b: int| 0 <= a < b < after.len() implies text::before(
            #[trigger] after[a].key,
            #[trigger] after[b].key,
        ) by {
            if a < i {
                assert(after[a] == groups[a]);
                if b > i {
                    assert(after[b] == groups[b - 1]);
                } else if b < i {
                    assert(after[b] == groups[b]);
                }
            } else if a == i {
                assert(after[b] == groups[b - 1]);
                text::lemma_before_total(groups[b - 1].key, item.key);
            } else {
                assert(after[a] == groups[a - 1] && after[b] == groups[b - 1]);
            }
        }
    }
}

proof fn lemma_values_len(items: Seq<Item>, key: Seq<char>)
    ensures
        values_of(items, key).len() <= items.len(),
    decreases items.len(),
{
    if items.len() > 0 {
        lemma_values_len(items.drop_last(), key);
    }
}

/// The groups of a list are the totals of its keys.
pub proof fn lemma_tally_totals(items: Seq<Item>)
    requires
        items.len() <= i64::MAX,
        tally(items) is Some,
    ensures
        totals(items, tally(items)->0),
    decreases items.len(),
{
    if items.len() > 0 {
        lemma_tally_totals(items.drop_last());
        assert(items.drop_last().push(items.last()) =~= items);
        lemma_added(items.drop_last(), tally(items.drop_last())->0, items.last());
    } else {
        assert forall|key: Seq<char>| (#[trigger] values_of(items, key)).len() > 0 implies exists|
            i: int,
        | 0 <= i < 0 && #[trigger] tally(items)->0[i].key == key by {}
    }
}

/// A key with values occurs in the list.
pub proof fn lemma_value_origin(items: Seq<Item>, key: Seq<char>) -> (k: int)
    requires
        values_of(items, key).len() > 0,
    ensures
        0 <= k < items.len(),
        items[k].key == key,
    decreases items.len(),
{
    if items.last().key == key {
        items.len() - 1
    } else {
        lemma_value_origin(items.drop_last(), key)
    }
}

/// Where the first items leave the range, all of them do.
pub proof fn lemma_tally_prefix(items: Seq<Item>, k: int)
    requires
        0 <= k <= items.len(),
        tally(items.take(k)) is None,
    ensures
        tally(items) is None,
    decreases items.len(),
{
    if k == items.len() {
        assert(items.take(k) =~= items);
    } else {
        assert(items.drop_last().take(k) =~= items.take(k));
        lemma_tally_prefix(items.drop_last(), k);
    }
}

/// Items without a value can always be added up.
pub proof fn lemma_zero_tally(items: Seq<Item>)
    requires
        items.len() <= i64::MAX,
        forall|i: int| 0 <= i < items.len() ==> (#[trigger] items[i]).seconds == 0,
    ensures
        tally(items) is Some,
        forall|i: int|
            0 <= i < tally(items)->0.len() ==> (#[trigger] tally(items)->0[i]).seconds
                == 0,
    decreases items.len(),
{
    if items.len() > 0 {
        let shorter = items.drop_last();
        assert forall|i: int| 0 <= i < shorter.len() implies (#[trigger] shorter[i]).seconds
            == 0 by {
            assert(items[i].seconds == 0);
        }
        lemma_zero_tally(shorter);
        let groups = tally(shorter)->0;
        lemma_tally_totals(shorter);
        lemma_slot(groups, items.last().key);
    }
}

/// A key that occurs in the list has values.
pub proof fn lemma_value_present(items: Seq<Item>, k: int)
    requires
        0 <= k < items.len(),
    ensures
        values_of(items, items[k].key).len() > 0,
    decreases items.len(),
{
    if k < items.len() - 1 {
        lemma_value_present(items.drop_last(), k);
    }
}

/// The totals by key of the items entered so far.
pub struct Tally {
    groups: Vec<Group>,
    entered: Ghost<Seq<Item>>,
}

impl Tally {
    /// The items entered so far.
    pub closed spec fn items(&self) -> Seq<Item> {
        self.entered@
    }

    /// The groups are those of the items.
    pub closed spec fn wf(&self) -> bool {
        &&& tally(self.entered@) == Some(group_views(self.groups@))
        &&& self.entered@.len() <= i64::MAX
    }

    /// No items yet.
    pub fn new() -> (r: Tally)
        ensures
            r.wf(),
            r.items() == Seq::<Item>::empty(),
    {
        let r = Tally { groups: Vec::new(), entered: Ghost(Seq::empty()) };
        assert(group_views(r.groups@) =~= Seq::<GroupView>::empty());
        r
    }

    /// Enters one more item; tells whether the total of its key still fits. Where it does not,
    /// nothing changes.
    pub fn enter(&mut self, key: &str, seconds: i64) -> (r: bool)
        requires
            old(self).wf(),
            old(self).items().len() < i64::MAX,
        ensures
            final(self).wf(),
            r == (tally(old(self).items().push(Item { key: key@, seconds })) is Some),
            final(self).items() == (if r {
                old(self).items().push(Item { key: key@, seconds })
            } else {
                old(self).items()
            }),
    {
        let ghost views = group_views(self.groups@);
        let ghost item = Item { key: key@, seconds };
        proof {
            lemma_tally_totals(self.entered@);
            lemma_slot(views, key@);
            assert(self.entered@.push(item).drop_last() =~= self.entered@);
            assert(forall|i: int| 0 <= i < views.len() ==> #[trigger] views[i] == self.groups@[i]@);
        }
        let mut lo: usize = 0;
        let mut hi: usize = self.groups.len();
        while lo < hi
            invariant
                lo <= hi <= self.groups@.len(),
                views == group_views(self.groups@),
                lo <= slot(views, key@) <= hi,
                forall|i: int|
                    0 <= i < slot(views, key@) ==> text::before(#[trigger] views[i].key, key@),
                forall|i: int|
                    slot(views, key@) <= i < views.len() ==> !text::before(
                        #[trigger] views[i].key,
                        key@,
                    ),
            decreases hi - lo,
        {
            let mid: usize = lo + (hi - lo) / 2;
            assert(views[mid as int].key == self.groups@[mid as int].key@);
            if is_before(self.groups[mid].key.as_str(), key) {
                lo = mid + 1;
            } else {
                hi = mid;
            }
        }
        let i: usize = lo;
        if i < self.groups.len() && same_text(self.groups[i].key.as_str(), key) {
            assert(views[i as int] == self.groups@[i as int]@);
            let total: Option<i64> = self.groups[i].seconds.checked_add(seconds);
            match total {
                Some(sum) => {
                    proof {
                        lemma_values_len(self.entered@, key@);
                    }
                    let g = Group {
                        key: self.groups[i].key.clone(),
                        seconds: sum,
                        times: self.groups[i].times + 1,
                    };
                    let ghost value = g@;
                    self.groups.set(i, g);
                    proof {
                        assert(group_views(self.groups@) =~= views.update(i as int, value));
                        self.entered@ = self.entered@.push(item);
                    }
                    true
                },
                None => false,
            }
        } else {
            let g = Group { key: key.to_owned(), seconds, times: 1 };
            let ghost value = g@;
            self.groups.insert(i, g);
            proof {
                assert(group_views(self.groups@) =~= views.insert(i as int, value));
                self.entered@ = self.entered@.push(item);
            }
            true
        }
    }

    /// The groups, in key order.
    pub fn into_groups(self) -> (r: Vec<Group>)
        requires
            self.wf(),
        ensures
            tally(self.items()) == Some(group_views(r@)),
            totals(self.items(), group_views(r@)),
    {
        proof {
            lemma_tally_totals(self.entered@);
        }
        self.groups
    }
}

} // verus!
