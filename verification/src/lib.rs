//! Canteen pages turned into typed records, and queries over those records.
//!
//! A page is read into a [`Response`]: the ordered groups of the page, each
//! with its heading and its items. [`Response::filter`] keeps the items that
//! a predicate accepts and drops the groups that this leaves empty.

pub mod allergens;
pub mod codes;
pub mod date;
pub mod error;
pub mod html;
pub mod menu;
pub mod pattern;
pub mod text;
pub mod utility;

use vstd::prelude::*;
use vstd::seq_lib::lemma_filter_view_commute;
use crate::utility::{accepts, decides, lemma_filter_agree};

verus! {

/// The number by which the site knows a dining facility.
#[derive(Debug, Clone, Copy, PartialEq, Eq, Structural)]
pub struct MensaCode(pub u16);

impl From<u16> for MensaCode {
    fn from(code: u16) -> (made: MensaCode) {
        MensaCode(code)
    }
}

impl vstd::std_specs::convert::FromSpecImpl<u16> for MensaCode {
    open spec fn obeys_from_spec() -> bool {
        true
    }

    open spec fn from_spec(code: u16) -> MensaCode {
        MensaCode(code)
    }
}

/// A heading of a page and the items listed under it, in page order.
#[derive(Debug, Clone, PartialEq, Eq)]
pub struct Group<Item> {
    pub name: String,
    pub items: Vec<Item>,
}

/// Everything read from one page: its groups, in page order.
#[derive(Debug, Clone, PartialEq, Eq)]
pub struct Response<Item>(pub Vec<Group<Item>>);

/// The mathematical value of a [`Group`].
pub struct GroupModel<T> {
    pub name: Seq<char>,
    pub items: Seq<T>,
}

impl<Item> View for Group<Item> {
    type V = GroupModel<Item>;

    open spec fn view(&self) -> GroupModel<Item> {
        GroupModel { name: self.name@, items: self.items@ }
    }
}

impl<Item> View for Response<Item> {
    type V = Seq<GroupModel<Item>>;

    open spec fn view(&self) -> Seq<GroupModel<Item>> {
        self.0@.map_values(|group: Group<Item>| group@)
    }
}

/// The heading that `text` gives a group: the text itself, unless there is
/// none or it is empty. A group has a name.
pub open spec fn heading_of(text: Option<Seq<char>>) -> Option<Seq<char>> {
    match text {
        Some(name) => if name.len() >= 1 {
            Some(name)
        } else {
            None
        },
        None => None,
    }
}

/// The heading that `text` gives a group.
pub fn heading_text(text: Option<String>) -> (heading: Option<String>)
    ensures
        heading.deep_view() == heading_of(text.deep_view()),
{
    match text {
        Some(name) => if name.as_str().is_empty() {
            None
        } else {
            Some(name)
        },
        None => None,
    }
}

/// `group` with the value of each item in place of the item.
pub open spec fn deep_group<T: View>(group: GroupModel<T>) -> GroupModel<T::V> {
    GroupModel { name: group.name, items: group.items.map_values(|item: T| item@) }
}

/// `groups` with the value of each item in place of the item.
pub open spec fn deep_groups<T: View>(groups: Seq<GroupModel<T>>) -> Seq<GroupModel<T::V>> {
    groups.map_values(|group: GroupModel<T>| deep_group(group))
}

impl<Item: View> Group<Item> {
    /// The value of the group with the value of each item in place of the
    /// item.
    pub open spec fn deep(&self) -> GroupModel<Item::V> {
        deep_group(self@)
    }
}

impl<Item: View> Response<Item> {
    /// The value of the response with the value of each item in place of the
    /// item.
    pub open spec fn deep(&self) -> Seq<GroupModel<Item::V>> {
        deep_groups(self@)
    }
}

/// `group` with only the items that `keep` holds of, or nothing if there is
/// no such item.
pub open spec fn kept_group<T>(group: GroupModel<T>, keep: spec_fn(T) -> bool) -> Option<
    GroupModel<T>,
> {
    let items = group.items.filter(keep);
    if items.len() > 0 {
        Some(GroupModel { name: group.name, items })
    } else {
        None
    }
}

/// `groups` with only the items that `keep` holds of, and without the groups
/// that have no such item.
pub open spec fn filtered<T>(groups: Seq<GroupModel<T>>, keep: spec_fn(T) -> bool) -> Seq<
    GroupModel<T>,
> {
    groups.filter_map(|group: GroupModel<T>| kept_group(group, keep))
}

/// Whether every group of `groups` has an item.
pub open spec fn no_group_empty<T>(groups: Seq<GroupModel<T>>) -> bool {
    forall|g: int| 0 <= g < groups.len() ==> (#[trigger] groups[g]).items.len() >= 1
}

/// Whether every group of `groups` has a name: a heading that is not empty.
pub open spec fn all_named<T>(groups: Seq<GroupModel<T>>) -> bool {
    forall|g: int| 0 <= g < groups.len() ==> (#[trigger] groups[g]).name.len() >= 1
}

/// Whether `predicate` decides every item of `groups`.
pub open spec fn decides_all<Item, F: Fn(&Item) -> bool>(
    predicate: F,
    groups: Seq<GroupModel<Item>>,
) -> bool {
    forall|g: int, i: int|
        0 <= g < groups.len() && 0 <= i < groups[g].items.len() ==> decides(
            predicate,
            #[trigger] groups[g].items[i],
        )
}

/// Whether `predicate` has answered, for every item of `groups`, what
/// [`accepts`] says of it.
pub open spec fn answers_all<Item, F: Fn(&Item) -> bool>(
    predicate: F,
    groups: Seq<GroupModel<Item>>,
) -> bool {
    forall|g: int, i: int|
        0 <= g < groups.len() && 0 <= i < groups[g].items.len() ==> call_ensures(
            predicate,
            (&#[trigger] groups[g].items[i],),
            accepts(predicate, groups[g].items[i]),
        )
}

/// The items of `items` that `predicate` accepts, in their order. The
/// predicate must decide each item.
pub fn keep_items<Item, F: Fn(&Item) -> bool>(items: Vec<Item>, predicate: &F) -> (kept: Vec<Item>)
    requires
        forall|i: int| 0 <= i < items@.len() ==> decides(*predicate, #[trigger] items@[i]),
    ensures
        kept@ == items@.filter(|x: Item| accepts(*predicate, x)),
        forall|i: int|
            0 <= i < items@.len() ==> call_ensures(
                *predicate,
                (&#[trigger] items@[i],),
                accepts(*predicate, items@[i]),
            ),
{
    let ghost all = items@;
    let ghost keep = |x: Item| accepts(*predicate, x);
    let mut kept: Vec<Item> = Vec::new();
    proof {
        reveal(Seq::filter);
        assert(all.take(0).filter(keep) =~= Seq::empty());
    }
    for item in it: items
        invariant
            all == it.seq(),
            keep == |x: Item| accepts(*predicate, x),
            forall|i: int| 0 <= i < all.len() ==> decides(*predicate, #[trigger] all[i]),
            kept@ =~= all.take(it.index() as int).filter(keep),
            forall|i: int|
                0 <= i < it.index() ==> call_ensures(
                    *predicate,
                    (&#[trigger] all[i],),
                    accepts(*predicate, all[i]),
                ),
    {
        assert(decides(*predicate, all[it.index() as int]));
        let wanted = predicate(&item);
        proof {
            reveal(Seq::filter);
            assert(all.take(it.index() as int + 1).drop_last() =~= all.take(it.index() as int));
        }
        if wanted {
            kept.push(item);
        }
    }
    proof {
        assert(all.take(all.len() as int) =~= all);
    }
    kept
}

impl<Item> Response<Item> {
    /// Keeps the items that `predicate` accepts and drops every group that
    /// is left without one. Groups and items stay in their order. The
    /// predicate must decide each item: its answer is a function of the item.
    pub fn filter<F: Fn(&Item) -> bool>(self, predicate: F) -> (kept: Self)
        requires
            decides_all(predicate, self@),
        ensures
            kept@ == filtered(self@, |x: Item| accepts(predicate, x)),
            no_group_empty(kept@),
            all_named(self@) ==> all_named(kept@),
            answers_all(predicate, self@),
    {
        let ghost all = self.0@;
        let ghost source = self@;
        let ghost keep = |x: Item| accepts(predicate, x);
        let ghost prune = |group: GroupModel<Item>| kept_group(group, keep);
        let mut groups: Vec<Group<Item>> = Vec::new();
        for group in it: self.0
            invariant
                all == it.seq(),
                source == all.map_values(|group: Group<Item>| group@),
                keep == |x: Item| accepts(predicate, x),
                prune == |group: GroupModel<Item>| kept_group(group, keep),
                decides_all(predicate, source),
                groups@.map_values(|group: Group<Item>| group@) =~= source.take(
                    it.index() as int,
                ).filter_map(prune),
                forall|g: int, i: int|
                    0 <= g < it.index() && 0 <= i < source[g].items.len() ==> call_ensures(
                        predicate,
                        (&#[trigger] source[g].items[i],),
                        accepts(predicate, source[g].items[i]),
                    ),
        {
            let ghost at = it.index() as int;
            proof {
                assert(source[at] == group@);
                assert forall|i: int| 0 <= i < group.items@.len() implies decides(
                    predicate,
                    #[trigger] group.items@[i],
                ) by {
                    assert(decides(predicate, source[at].items[i]));
                }
                source.lemma_filter_map_take_succ(prune, at);
            }
            let Group { name, items } = group;
            let items = keep_items(items, &predicate);
            if !items.is_empty() {
                groups.push(Group { name, items });
            }
        }
        proof {
            assert(source.take(source.len() as int) =~= source);
            lemma_filtered_no_group_empty(source, keep);
            if all_named(source) {
                lemma_filtered_named(source, keep);
            }
        }
        Response(groups)
    }
}

/// Filtering leaves no group without an item.
pub proof fn lemma_filtered_no_group_empty<T>(groups: Seq<GroupModel<T>>, keep: spec_fn(T) -> bool)
    ensures
        no_group_empty(filtered(groups, keep)),
    decreases groups.len(),
{
    if groups.len() > 0 {
        lemma_filtered_no_group_empty(groups.drop_last(), keep);
    }
}

/// Filtering keeps the names: where every group has a name, every group
/// that is left has one.
pub proof fn lemma_filtered_named<T>(groups: Seq<GroupModel<T>>, keep: spec_fn(T) -> bool)
    requires
        all_named(groups),
    ensures
        all_named(filtered(groups, keep)),
    decreases groups.len(),
{
    if groups.len() > 0 {
        let rest = groups.drop_last();
        assert forall|g: int| 0 <= g < rest.len() implies (#[trigger] rest[g]).name.len()
            >= 1 by {
            assert(groups[g].name.len() >= 1);
        }
        lemma_filtered_named(rest, keep);
        assert(groups.last() == groups[groups.len() - 1]);
    }
}

/// Two predicates that agree on every item of `groups` filter them alike.
pub proof fn lemma_filtered_agree<T>(
    groups: Seq<GroupModel<T>>,
    p: spec_fn(T) -> bool,
    q: spec_fn(T) -> bool,
)
    requires
        forall|g: int, i: int|
            0 <= g < groups.len() && 0 <= i < groups[g].items.len() ==> p(
                #[trigger] groups[g].items[i],
            ) == q(groups[g].items[i]),
    ensures
        filtered(groups, p) == filtered(groups, q),
    decreases groups.len(),
{
    if groups.len() > 0 {
        let rest = groups.drop_last();
        let last = groups.last();
        assert forall|g: int, i: int|
            0 <= g < rest.len() && 0 <= i < rest[g].items.len() implies p(
            #[trigger] rest[g].items[i],
        ) == q(rest[g].items[i]) by {
            assert(p(groups[g].items[i]) == q(groups[g].items[i]));
        }
        lemma_filtered_agree(rest, p, q);
        assert forall|i: int| 0 <= i < last.items.len() implies p(#[trigger] last.items[i]) == q(
            last.items[i],
        ) by {
            assert(p(groups[groups.len() - 1].items[i]) == q(groups[groups.len() - 1].items[i]));
        }
        lemma_filter_agree(last.items, p, q);
    }
}

/// Filtering by what a predicate says of the values of the items, and then
/// taking values, is taking values and then filtering by the predicate.
pub proof fn lemma_filtered_deep<T: View>(groups: Seq<GroupModel<T>>, keep: spec_fn(T::V) -> bool)
    ensures
        deep_groups(filtered(groups, |item: T| keep(item@))) == filtered(deep_groups(groups), keep),
    decreases groups.len(),
{
    let lifted = |item: T| keep(item@);
    if groups.len() == 0 {
        assert(deep_groups(groups) =~= Seq::empty());
        assert(deep_groups(filtered(groups, lifted)) =~= Seq::empty());
    } else {
        let rest = groups.drop_last();
        let last = groups.last();
        lemma_filtered_deep(rest, keep);
        lemma_filter_view_commute(last.items, lifted, keep);
        assert(deep_groups(groups).drop_last() =~= deep_groups(rest));
        assert(deep_groups(groups).last() == deep_group(last));
        match kept_group(last, lifted) {
            Some(group) => {
                assert(kept_group(deep_group(last), keep) == Some(deep_group(group)));
                assert(deep_groups(filtered(rest, lifted) + seq![group]) =~= deep_groups(
                    filtered(rest, lifted),
                ) + seq![deep_group(group)]);
            },
            None => {
                assert(kept_group(deep_group(last), keep) is None);
            },
        }
    }
}

/// Filtering a sequence twice by one predicate is filtering it once.
pub proof fn lemma_filter_twice<T>(items: Seq<T>, keep: spec_fn(T) -> bool)
    ensures
        items.filter(keep).filter(keep) == items.filter(keep),
    decreases items.len(),
{
    reveal(Seq::filter);
    if items.len() > 0 {
        let rest = items.drop_last();
        lemma_filter_twice(rest, keep);
        if keep(items.last()) {
            rest.filter(keep).lemma_filter_push(items.last(), keep);
        }
    }
}

/// Filtering is idempotent: a second pass with the same predicate changes
/// nothing.
pub proof fn lemma_filtered_idempotent<T>(groups: Seq<GroupModel<T>>, keep: spec_fn(T) -> bool)
    ensures
        filtered(filtered(groups, keep), keep) == filtered(groups, keep),
    decreases groups.len(),
{
    let prune = |group: GroupModel<T>| kept_group(group, keep);
    if groups.len() > 0 {
        let rest = groups.drop_last();
        let last = groups.last();
        lemma_filtered_idempotent(rest, keep);
        match kept_group(last, keep) {
            Some(group) => {
                lemma_filter_twice(last.items, keep);
                assert(kept_group(group, keep) == Some(group));
                let once = filtered(rest, keep);
                assert(filtered(groups, keep) == once + seq![group]);
                assert((once + seq![group]).drop_last() =~= once);
                assert((once + seq![group]).filter_map(prune) == once.filter_map(prune)
                    + seq![group]);
            },
            None => {},
        }
    }
}

/// Where each survivor of a filter stood: `sources[i]` is the position in
/// `items` of the `i`-th item of `items.filter(keep)`. The positions increase,
/// so the survivors keep their relative order.
pub proof fn lemma_filter_order<T>(items: Seq<T>, keep: spec_fn(T) -> bool) -> (sources: Seq<int>)
    ensures
        sources.len() == items.filter(keep).len(),
        forall|i: int|
            0 <= i < sources.len() ==> 0 <= #[trigger] sources[i] < items.len()
                && items.filter(keep)[i] == items[sources[i]],
        forall|i: int, j: int| 0 <= i < j < sources.len() ==> sources[i] < sources[j],
    decreases items.len(),
{
    reveal(Seq::filter);
    if items.len() == 0 {
        Seq::empty()
    } else {
        let before = lemma_filter_order(items.drop_last(), keep);
        if keep(items.last()) {
            before.push(items.len() - 1)
        } else {
            before
        }
    }
}

/// Where each surviving group stood: `sources[g]` is the position in `groups`
/// of the `g`-th group of `filtered(groups, keep)`, which has its name and
/// the items of it that `keep` holds of. The positions increase, so the
/// surviving groups keep their relative order.
pub proof fn lemma_filtered_order<T>(
    groups: Seq<GroupModel<T>>,
    keep: spec_fn(T) -> bool,
) -> (sources: Seq<int>)
    ensures
        sources.len() == filtered(groups, keep).len(),
        forall|g: int|
            0 <= g < sources.len() ==> 0 <= #[trigger] sources[g] < groups.len()
                && filtered(groups, keep)[g].name == groups[sources[g]].name
                && filtered(groups, keep)[g].items == groups[sources[g]].items.filter(keep),
        forall|g: int, h: int| 0 <= g < h < sources.len() ==> sources[g] < sources[h],
    decreases groups.len(),
{
    if groups.len() == 0 {
        Seq::empty()
    } else {
        let before = lemma_filtered_order(groups.drop_last(), keep);
        if kept_group(groups.last(), keep) is Some {
            before.push(groups.len() - 1)
        } else {
            before
        }
    }
}

} // verus!
