//! The registry of allergens: what each code on a menu stands for.

use vstd::prelude::*;
use crate::error::{missing, within, Error, ErrorModel};
use crate::html::{
    document_of, element_inner_html, inner_html, page_matches, parse_document, select_in_page,
    selector, selector_of,
};
use crate::pattern::{all_matches, captures_iter, compiled, expression, group, group_text};
use crate::text::{chars_of, parse_unsigned, unsigned_of};
use crate::utility::{lemma_try_map_prefix_fails, try_map};
use crate::{Group, GroupModel};

verus! {

/// An entry of the registry: the number and letter of a code, and what the
/// code stands for.
#[derive(Debug, Clone, PartialEq, Eq)]
pub struct Allergen {
    pub name: String,
    pub number: u8,
    pub index: Option<char>,
}

/// The mathematical value of an [`Allergen`].
pub struct AllergenModel {
    pub name: Seq<char>,
    pub number: u8,
    pub index: Option<char>,
}

impl View for Allergen {
    type V = AllergenModel;

    open spec fn view(&self) -> AllergenModel {
        AllergenModel { name: self.name@, number: self.number, index: self.index }
    }
}

/// What is reported of a registry that cannot be read.
pub const REGISTRY_FIELD: &'static str = "Group<Allergen>";

/// What is reported of an entry that cannot be read.
pub const ENTRY_FIELD: &'static str = "Allergen";

/// The text of [`ENTRY_FIELD`].
pub open spec fn entry_field() -> Seq<char> {
    ENTRY_FIELD@
}

/// The letter of a code: the first character of what its group matched.
pub open spec fn letter_of(index: Option<Seq<char>>) -> Option<char> {
    match index {
        Some(text) => if text.len() > 0 {
            Some(text[0])
        } else {
            None
        },
        None => None,
    }
}

/// The entry that the groups of a match write: group 1 is the number, group
/// 2 the letter, if there is one, and group 3 the name.
pub open spec fn allergen_of_groups(groups: Seq<Option<Seq<char>>>) -> Result<
    AllergenModel,
    ErrorModel,
> {
    match group_text(groups, 1) {
        None => Err(missing(entry_field())),
        Some(digits) => match unsigned_of(digits, u8::MAX as nat) {
            Err(error) => Err(within(entry_field(), ErrorModel::Number(error))),
            Ok(number) => match group_text(groups, 3) {
                None => Err(missing(entry_field())),
                Some(name) => Ok(
                    AllergenModel {
                        name,
                        number: number as u8,
                        index: letter_of(group_text(groups, 2)),
                    },
                ),
            },
        },
    }
}

/// Where an entry with `number` goes into `entries`: behind the last entry
/// whose number is no greater.
pub open spec fn place_of(entries: Seq<AllergenModel>, number: u8) -> nat
    decreases entries.len(),
{
    if entries.len() == 0 {
        0
    } else if entries.last().number <= number {
        entries.len()
    } else {
        place_of(entries.drop_last(), number)
    }
}

/// `entries` with `entry` put behind the last entry whose number is no
/// greater.
pub open spec fn placed(entries: Seq<AllergenModel>, entry: AllergenModel) -> Seq<AllergenModel> {
    entries.insert(place_of(entries, entry.number) as int, entry)
}

/// `entries` by ascending number, entries of one number in the order in
/// which they stand in `entries`.
pub open spec fn by_number(entries: Seq<AllergenModel>) -> Seq<AllergenModel>
    decreases entries.len(),
{
    if entries.len() == 0 {
        Seq::empty()
    } else {
        placed(by_number(entries.drop_last()), entries.last())
    }
}

/// Whether the numbers of `entries` ascend.
pub open spec fn ascending(entries: Seq<AllergenModel>) -> bool {
    forall|i: int, j: int|
        0 <= i <= j < entries.len() ==> (#[trigger] entries[i]).number <= (
        #[trigger] entries[j]).number
}

/// Whether the numbers of the entries `entries` ascend.
pub open spec fn in_order(entries: Seq<Allergen>) -> bool {
    forall|i: int, j: int|
        0 <= i <= j < entries.len() ==> (#[trigger] entries[i]).number <= (
        #[trigger] entries[j]).number
}

/// Entries whose values ascend by number ascend by number themselves.
pub proof fn lemma_in_order(entries: Seq<Allergen>)
    requires
        ascending(entries.map_values(|held: Allergen| held@)),
    ensures
        in_order(entries),
{
    let values = entries.map_values(|held: Allergen| held@);
    assert forall|i: int, j: int| 0 <= i <= j < entries.len() implies (#[trigger] entries[i]).number
        <= (#[trigger] entries[j]).number by {
        assert(values[i].number <= values[j].number);
    }
}

/// An entry goes to a place within the entries, behind entries that are no
/// greater and, where the numbers ascend, before entries that are greater.
pub proof fn lemma_place_of(entries: Seq<AllergenModel>, number: u8)
    ensures
        place_of(entries, number) <= entries.len(),
        place_of(entries, number) > 0 ==> entries[place_of(entries, number) - 1].number <= number,
        forall|k: int|
            place_of(entries, number) <= k < entries.len() ==> (#[trigger] entries[k]).number
                > number,
    decreases entries.len(),
{
    if entries.len() > 0 && entries.last().number > number {
        lemma_place_of(entries.drop_last(), number);
        let place = place_of(entries.drop_last(), number) as int;
        assert forall|k: int| place <= k < entries.len() implies (#[trigger] entries[k]).number
            > number by {
            if k < entries.len() - 1 {
                assert(entries.drop_last()[k].number > number);
            }
        }
        if place > 0 {
            assert(entries.drop_last()[place - 1] == entries[place - 1]);
        }
    }
}

/// Putting an entry into ascending entries leaves them ascending.
pub proof fn lemma_placed_ascending(entries: Seq<AllergenModel>, entry: AllergenModel)
    requires
        ascending(entries),
    ensures
        ascending(placed(entries, entry)),
{
    lemma_place_of(entries, entry.number);
    let place = place_of(entries, entry.number) as int;
    let after = placed(entries, entry);
    assert forall|i: int, j: int| 0 <= i <= j < after.len() implies (#[trigger] after[i]).number
        <= (#[trigger] after[j]).number by {
        if place > 0 {
            assert(entries[place - 1].number <= entry.number);
        }
        if i < place {
            assert(after[i] == entries[i]);
            assert(entries[i].number <= entries[place - 1].number);
        } else if i > place {
            assert(after[i] == entries[i - 1]);
        }
        if j < place {
            assert(after[j] == entries[j]);
        } else if j > place {
            assert(after[j] == entries[j - 1]);
            assert(entries[j - 1].number > entry.number);
        }
    }
}

/// The entries by number ascend, and they are the given entries, each as
/// often as it was given.
pub proof fn lemma_by_number(entries: Seq<AllergenModel>)
    ensures
        ascending(by_number(entries)),
        by_number(entries).to_multiset() == entries.to_multiset(),
        by_number(entries).len() == entries.len(),
    decreases entries.len(),
{
    broadcast use vstd::seq_lib::group_to_multiset_ensures;

    if entries.len() > 0 {
        let rest = entries.drop_last();
        lemma_by_number(rest);
        lemma_placed_ascending(by_number(rest), entries.last());
        lemma_place_of(by_number(rest), entries.last().number);
        assert(entries =~= rest.push(entries.last()));
    } else {
        assert(by_number(entries) =~= entries);
    }
}

impl Allergen {
    /// The entry that the groups of a match write.
    pub fn from_groups(groups: &Vec<Option<String>>) -> (entry: Result<Allergen, Error>)
        ensures
            match entry {
                Ok(entry) => allergen_of_groups(groups.deep_view()) == Ok::<
                    AllergenModel,
                    ErrorModel,
                >(entry@),
                Err(error) => allergen_of_groups(groups.deep_view()) == Err::<
                    AllergenModel,
                    ErrorModel,
                >(error@),
            },
    {
        let digits = match group(groups, 1) {
            Some(digits) => digits,
            None => {
                return Err(Error::missing(ENTRY_FIELD));
            },
        };
        let number: u64 = match parse_unsigned(digits.as_str(), 0xff) {
            Ok(number) => number,
            Err(error) => {
                return Err(Error::within(ENTRY_FIELD, Error::Number(error)));
            },
        };
        let name = match group(groups, 3) {
            Some(name) => name.clone(),
            None => {
                return Err(Error::missing(ENTRY_FIELD));
            },
        };
        let index = match group(groups, 2) {
            Some(letter) => {
                let letters = chars_of(letter.as_str());
                if letters.len() > 0 {
                    Some(letters[0])
                } else {
                    None
                }
            },
            None => None,
        };
        Ok(Allergen { name, number: number as u8, index })
    }

    /// Puts `entry` into `entries` behind the last entry whose number is no
    /// greater.
    pub fn place(entries: &mut Vec<Allergen>, entry: Allergen)
        ensures
            final(entries)@.map_values(|held: Allergen| held@) == placed(
                old(entries)@.map_values(|held: Allergen| held@),
                entry@,
            ),
    {
        let ghost before = entries@.map_values(|held: Allergen| held@);
        let mut place: usize = entries.len();
        assert(before.take(place as int) =~= before);
        while place > 0 && entries[place - 1].number > entry.number
            invariant
                place <= entries@.len(),
                entries@ == old(entries)@,
                before == entries@.map_values(|held: Allergen| held@),
                place_of(before, entry.number) == place_of(before.take(place as int), entry.number),
            decreases place,
        {
            proof {
                assert(before.take(place as int).drop_last() =~= before.take(place - 1));
                assert(before.take(place as int).last() == entries@[place - 1]@);
            }
            place -= 1;
        }
        proof {
            if place > 0 {
                assert(before.take(place as int).last() == entries@[place - 1]@);
            }
        }
        entries.insert(place, entry);
        assert(entries@.map_values(|held: Allergen| held@) =~= before.insert(place as int, entry@));
    }

    /// `entries` by ascending number, entries of one number in their order.
    pub fn sort(entries: Vec<Allergen>) -> (sorted: Vec<Allergen>)
        ensures
            sorted@.map_values(|held: Allergen| held@) == by_number(
                entries@.map_values(|held: Allergen| held@),
            ),
            ascending(sorted@.map_values(|held: Allergen| held@)),
            in_order(sorted@),
            sorted@.len() == entries@.len(),
    {
        let ghost given = entries@;
        let ghost all = entries@.map_values(|held: Allergen| held@);
        let mut sorted: Vec<Allergen> = Vec::new();
        assert(sorted@.map_values(|held: Allergen| held@) =~= by_number(all.take(0)));
        for entry in it: entries
            invariant
                given == it.seq(),
                all == given.map_values(|held: Allergen| held@),
                sorted@.map_values(|held: Allergen| held@) == by_number(
                    all.take(it.index() as int),
                ),
        {
            proof {
                assert(all.take(it.index() + 1).drop_last() =~= all.take(it.index() as int));
                assert(all.take(it.index() + 1).last() == entry@);
            }
            Allergen::place(&mut sorted, entry);
        }
        proof {
            assert(all.take(all.len() as int) =~= all);
            lemma_by_number(all);
            lemma_in_order(sorted@);
        }
        sorted
    }
}

/// The expression that matches an entry: a number, at most one letter,
/// a hyphen between spaces, and a name.
pub const ENTRY_RULE: &'static str = "(?P<number>\\d+)(?P<index>\\w?) - (?P<name>(\\w|\\s|[.()])+)";

/// The text of [`ENTRY_RULE`].
pub open spec fn entry_rule() -> Seq<char> {
    ENTRY_RULE@
}

/// The selector of the items of the list of allergens.
pub const ITEM_RULE: &'static str = "div.col-sm-6 > ul > li";

/// The text of [`ITEM_RULE`].
pub open spec fn item_rule() -> Seq<char> {
    ITEM_RULE@
}

/// The entries that `entry` matches in `text`, in the order of the text. A
/// match that writes no entry fails.
pub open spec fn entries_in(entry: regex::Regex, text: Seq<char>) -> Result<
    Seq<AllergenModel>,
    ErrorModel,
> {
    try_map(all_matches(entry, text), |groups: Seq<Option<Seq<char>>>| allergen_of_groups(groups))
}

/// The entries that `text` writes, in its order.
pub open spec fn entries_of(text: Seq<char>) -> Result<Seq<AllergenModel>, ErrorModel> {
    match compiled(entry_rule()) {
        None => Err(missing(entry_rule())),
        Some(entry) => entries_in(entry, text),
    }
}

/// The entries that the list items `items` write, one item after the other.
pub open spec fn entries_of_items(
    entry: regex::Regex,
    items: Seq<scraper::ElementRef<'static>>,
) -> Result<Seq<AllergenModel>, ErrorModel>
    decreases items.len(),
{
    if items.len() == 0 {
        Ok(Seq::empty())
    } else {
        match entries_of_items(entry, items.drop_last()) {
            Err(error) => Err(error),
            Ok(before) => match entries_in(entry, element_inner_html(items.last())) {
                Err(error) => Err(error),
                Ok(here) => Ok(before + here),
            },
        }
    }
}

/// The registry that `page` holds: every entry of every item of its list of
/// allergens, by ascending number.
pub open spec fn registry_of(page: scraper::Html) -> Result<Seq<AllergenModel>, ErrorModel> {
    match selector_of(item_rule()) {
        None => Err(missing(item_rule())),
        Some(item) => match compiled(entry_rule()) {
            None => Err(missing(entry_rule())),
            Some(entry) => match entries_of_items(entry, page_matches(page, item)) {
                Err(error) => Err(error),
                Ok(entries) => Ok(by_number(entries)),
            },
        },
    }
}

/// The registry that the page `text` holds. A page that cannot be read fails
/// as the group of allergens that it should have been.
pub open spec fn registry_in(text: Seq<char>) -> Result<Seq<AllergenModel>, ErrorModel> {
    match registry_of(document_of(text)) {
        Ok(entries) => Ok(entries),
        Err(error) => Err(within(REGISTRY_FIELD@, error)),
    }
}

/// An item that fails makes the items up to it, and all of them, fail alike.
pub proof fn lemma_entries_of_items_fail(
    entry: regex::Regex,
    items: Seq<scraper::ElementRef<'static>>,
    n: int,
)
    requires
        0 <= n <= items.len(),
        entries_of_items(entry, items.take(n)) is Err,
    ensures
        entries_of_items(entry, items) == entries_of_items(entry, items.take(n)),
    decreases items.len() - n,
{
    if n < items.len() {
        assert(items.take(n + 1).drop_last() =~= items.take(n));
        lemma_entries_of_items_fail(entry, items, n + 1);
    } else {
        assert(items.take(n) =~= items);
    }
}

impl Allergen {
    /// The entries that `entry` matches in `text`, in the order of the text.
    #[verifier::loop_isolation(false)]
    pub fn matched(entry: &regex::Regex, text: &str) -> (entries: Result<Vec<Allergen>, Error>)
        ensures
            match entries {
                Ok(entries) => entries_in(*entry, text@) == Ok::<Seq<AllergenModel>, ErrorModel>(
                    entries@.map_values(|held: Allergen| held@),
                ),
                Err(error) => entries_in(*entry, text@) == Err::<Seq<AllergenModel>, ErrorModel>(
                    error@,
                ),
            },
    {
        let found = captures_iter(entry, text);
        let ghost all = found.deep_view();
        let ghost read = |groups: Seq<Option<Seq<char>>>| allergen_of_groups(groups);
        let mut entries: Vec<Allergen> = Vec::new();
        let mut i: usize = 0;
        assert(all.take(0) =~= Seq::empty());
        assert(entries@.map_values(|held: Allergen| held@) =~= Seq::empty());
        while i < found.len()
            invariant
                i <= found@.len(),
                try_map(all.take(i as int), read) == Ok::<Seq<AllergenModel>, ErrorModel>(
                    entries@.map_values(|held: Allergen| held@),
                ),
            decreases found@.len() - i,
        {
            let ghost before = entries@.map_values(|held: Allergen| held@);
            proof {
                assert(all.take(i + 1).drop_last() =~= all.take(i as int));
                assert(all[i as int] == found@[i as int].deep_view());
            }
            match Allergen::from_groups(&found[i]) {
                Ok(held) => {
                    entries.push(held);
                    assert(entries@.map_values(|held: Allergen| held@) =~= before.push(held@));
                },
                Err(error) => {
                    proof {
                        lemma_try_map_prefix_fails(all, read, i + 1);
                    }
                    return Err(error);
                },
            }
            i += 1;
        }
        assert(all.take(i as int) =~= all);
        Ok(entries)
    }

    /// The entries that `text` writes, in its order.
    pub fn parse_all(text: &str) -> (entries: Result<Vec<Allergen>, Error>)
        ensures
            match entries {
                Ok(entries) => entries_of(text@) == Ok::<Seq<AllergenModel>, ErrorModel>(
                    entries@.map_values(|held: Allergen| held@),
                ),
                Err(error) => entries_of(text@) == Err::<Seq<AllergenModel>, ErrorModel>(error@),
            },
    {
        let entry = expression(ENTRY_RULE)?;
        Allergen::matched(&entry, text)
    }

    /// The registry that `page` holds, by ascending number.
    #[verifier::loop_isolation(false)]
    pub fn registry(page: scraper::Html) -> (entries: Result<Vec<Allergen>, Error>)
        ensures
            match entries {
                Ok(entries) => registry_of(page) == Ok::<Seq<AllergenModel>, ErrorModel>(
                    entries@.map_values(|held: Allergen| held@),
                ) && ascending(entries@.map_values(|held: Allergen| held@)) && in_order(
                    entries@,
                ),
                Err(error) => registry_of(page) == Err::<Seq<AllergenModel>, ErrorModel>(error@),
            },
    {
        let item = selector(ITEM_RULE)?;
        let entry = expression(ENTRY_RULE)?;
        let found = select_in_page(&page, &item);
        let mut entries: Vec<Allergen> = Vec::new();
        let mut i: usize = 0;
        assert(found@.take(0) =~= Seq::empty());
        assert(entries@.map_values(|held: Allergen| held@) =~= Seq::empty());
        while i < found.len()
            invariant
                i <= found@.len(),
                entries_of_items(entry, found@.take(i as int)) == Ok::<
                    Seq<AllergenModel>,
                    ErrorModel,
                >(entries@.map_values(|held: Allergen| held@)),
            decreases found@.len() - i,
        {
            let ghost before = entries@.map_values(|held: Allergen| held@);
            proof {
                assert(found@.take(i + 1).drop_last() =~= found@.take(i as int));
            }
            let text = inner_html(found[i]);
            match Allergen::matched(&entry, text.as_str()) {
                Ok(mut here) => {
                    let ghost added = here@.map_values(|held: Allergen| held@);
                    entries.append(&mut here);
                    assert(entries@.map_values(|held: Allergen| held@) =~= before + added);
                },
                Err(error) => {
                    proof {
                        lemma_entries_of_items_fail(entry, found@, i + 1);
                    }
                    return Err(error);
                },
            }
            i += 1;
        }
        assert(found@.take(i as int) =~= found@);
        Ok(Allergen::sort(entries))
    }
}

/// The heading under which the registry stands where it is handed out as a
/// group.
pub const REGISTRY_NAME: &'static str = "allergens";

/// The text of [`REGISTRY_NAME`].
pub open spec fn registry_name() -> Seq<char> {
    REGISTRY_NAME@
}

/// The registry that `page` holds, as one group under its heading.
pub open spec fn registry_group_of(page: scraper::Html) -> Result<
    GroupModel<AllergenModel>,
    ErrorModel,
> {
    match registry_of(page) {
        Ok(items) => Ok(GroupModel { name: registry_name(), items }),
        Err(error) => Err(error),
    }
}

impl Group<Allergen> {
    /// The registry that `page` holds, as one group under the heading
    /// [`REGISTRY_NAME`]: every entry of every item of its list of allergens,
    /// by ascending number, whatever the order of the page.
    pub fn try_from(page: scraper::Html) -> (group: Result<Group<Allergen>, Error>)
        ensures
            match group {
                Ok(group) => registry_group_of(page) == Ok::<GroupModel<AllergenModel>, ErrorModel>(
                    group.deep(),
                ) && group@.name.len() >= 1 && ascending(group.deep().items) && in_order(
                    group.items@,
                ),
                Err(error) => registry_group_of(page) == Err::<
                    GroupModel<AllergenModel>,
                    ErrorModel,
                >(error@),
            },
    {
        proof {
            reveal_strlit("allergens");
        }
        match Allergen::registry(page) {
            Ok(items) => Ok(Group { name: REGISTRY_NAME.to_owned(), items }),
            Err(error) => Err(error),
        }
    }
}

/// The registry of allergens that the page `text` holds, by ascending
/// number.
pub fn get(text: &str) -> (entries: Result<Vec<Allergen>, Error>)
    ensures
        match entries {
            Ok(entries) => registry_in(text@) == Ok::<Seq<AllergenModel>, ErrorModel>(
                entries@.map_values(|held: Allergen| held@),
            ) && ascending(entries@.map_values(|held: Allergen| held@)) && in_order(entries@),
            Err(error) => registry_in(text@) == Err::<Seq<AllergenModel>, ErrorModel>(error@),
        },
{
    match Allergen::registry(parse_document(text)) {
        Ok(entries) => Ok(entries),
        Err(error) => Err(Error::within(REGISTRY_FIELD, error)),
    }
}

} // verus!
