//! The menu of a dining facility: its meals, their prices, colors and tags.
//!
//! A menu page lists groups of meals. Each meal is read in two steps: its
//! parts are taken out of the page as plain text ([`Meal::read`]), and the
//! meal is made of those parts ([`Meal::from_parts`]).

pub mod icons;
pub mod money;
pub mod options;

pub use crate::menu::icons::{Color, Tag};
pub use crate::menu::money::{Cents, Price};
pub use crate::menu::options::MenuOptions;

use vstd::prelude::*;
use crate::error::{missing, within, Error, ErrorModel};
use crate::html::{
    attr, element_attr, element_matches, first_inner_html, first_inner_html_below, fragment_of,
    page_matches, parse_fragment, select, select_in_page, selector, selector_of,
};
use crate::menu::icons::{
    color_field, color_icons, color_of_icon, color_of_icons, color_of_shown, icon_partition,
    is_color_icon, tag_icons, tag_of_icon, tags_field, tags_of_icons, tags_of_shown,
};
use crate::menu::money::{price_field, price_of, PRICE_FIELD};
use crate::menu::options::{meal_passes, MenuOptionsModel};
use crate::pattern::{captures, compiled, expression, first_match, group, group_text};
use crate::text::{joined, lemma_split_joined, pieces, split, trim, trimmed, unique};
use crate::utility::{accepts, lemma_try_map_fails, lemma_try_map_prefix_fails, try_map};
use crate::{
    all_named, filtered, heading_of, heading_text, lemma_filtered_agree, lemma_filtered_deep,
    no_group_empty, Group, GroupModel, Response,
};

verus! {

/// One line of a menu.
#[derive(Debug, Clone, PartialEq, Eq)]
pub struct Meal {
    pub name: String,
    pub color: Color,
    /// The tags of the meal, each once.
    pub tags: Vec<Tag>,
    pub price: Option<Price>,
    /// The allergens of the meal as the page writes them, each once.
    pub allergens: Vec<String>,
}

/// The mathematical value of a [`Meal`]: its tags and allergens are sets.
pub struct MealModel {
    pub name: Seq<char>,
    pub color: Color,
    pub tags: Set<Tag>,
    pub price: Option<Price>,
    pub allergens: Set<Seq<char>>,
}

impl View for Meal {
    type V = MealModel;

    open spec fn view(&self) -> MealModel {
        MealModel {
            name: self.name@,
            color: self.color,
            tags: self.tags@.to_set(),
            price: self.price,
            allergens: self.allergens.deep_view().to_set(),
        }
    }
}

impl Meal {
    /// Whether the meal lists each tag and each allergen once.
    pub open spec fn wf(&self) -> bool {
        self.tags@.no_duplicates() && self.allergens.deep_view().no_duplicates()
    }
}

/// What a menu page holds of one meal, as text.
#[derive(Debug, Clone, PartialEq, Eq)]
pub struct MealParts {
    /// The source of each icon of the meal, where the icon names one.
    pub icons: Vec<Option<String>>,
    /// The text of the element that holds the name.
    pub name: Option<String>,
    /// The text of the price block.
    pub price: Option<String>,
    /// The groups that the allergen note matches: the list of allergens in
    /// parentheses is group 1.
    pub allergens: Option<Vec<Option<String>>>,
}

/// The mathematical value of [`MealParts`].
pub struct MealPartsModel {
    pub icons: Seq<Option<Seq<char>>>,
    pub name: Option<Seq<char>>,
    pub price: Option<Seq<char>>,
    pub allergens: Option<Seq<Option<Seq<char>>>>,
}

impl View for MealParts {
    type V = MealPartsModel;

    open spec fn view(&self) -> MealPartsModel {
        MealPartsModel {
            icons: self.icons.deep_view(),
            name: self.name.deep_view(),
            price: self.price.deep_view(),
            allergens: self.allergens.deep_view(),
        }
    }
}

/// What is reported of a meal with an icon that names no source.
pub const ICONS_FIELD: &'static str = "Meal icons";

/// What is reported of a meal without a name.
pub const NAME_FIELD: &'static str = "Meal::name";

/// What is reported of a group of meals without a heading.
pub const GROUP_NAME_FIELD: &'static str = "Group::name";

/// What is reported of a group with a meal that fails.
pub const GROUP_ITEMS_FIELD: &'static str = "Group::items";

/// What is reported of a page with a group that fails.
pub const GROUPS_FIELD: &'static str = "Response<Meal>::0";

/// What is reported of a menu that cannot be read.
pub const MENU_FIELD: &'static str = "Response<Meal>";

/// Whether each icon names its source.
pub open spec fn all_sources(icons: Seq<Option<Seq<char>>>) -> bool {
    forall|i: int| 0 <= i < icons.len() ==> (#[trigger] icons[i]) is Some
}

/// The sources of `icons`.
pub open spec fn sources(icons: Seq<Option<Seq<char>>>) -> Seq<Seq<char>> {
    icons.map_values(|icon: Option<Seq<char>>| icon.unwrap())
}

/// The price that a price block writes, if it writes one.
pub open spec fn price_if_any(block: Option<Seq<char>>) -> Option<Price> {
    match block {
        Some(text) => match price_of(text) {
            Ok(price) => Some(price),
            Err(_) => None,
        },
        None => None,
    }
}

/// The text that separates the allergens of a list.
pub open spec fn list_separator() -> Seq<char> {
    ", "@
}

/// The allergens that an allergen note lists: the parts of the list in
/// parentheses, or none where the note has no such list.
pub open spec fn allergens_listed(groups: Option<Seq<Option<Seq<char>>>>) -> Set<Seq<char>> {
    match groups {
        Some(groups) => match group_text(groups, 1) {
            Some(list) => split(list, list_separator()).to_set(),
            None => Set::empty(),
        },
        None => Set::empty(),
    }
}

/// The meal that `parts` describe. Every icon must name its source, one of
/// them must give the color, each of the others a tag, and there must be a
/// name. A price block that cannot be read means that there is no price.
pub open spec fn meal_of_parts(parts: MealPartsModel) -> Result<MealModel, ErrorModel> {
    if !all_sources(parts.icons) {
        Err(missing(ICONS_FIELD@))
    } else {
        match color_of_icons(sources(parts.icons)) {
            Err(error) => Err(error),
            Ok(color) => match tags_of_icons(sources(parts.icons)) {
                Err(error) => Err(error),
                Ok(tags) => match parts.name {
                    None => Err(missing(NAME_FIELD@)),
                    Some(name) => Ok(
                        MealModel {
                            name: trimmed(name),
                            color,
                            tags,
                            price: price_if_any(parts.price),
                            allergens: allergens_listed(parts.allergens),
                        },
                    ),
                },
            },
        }
    }
}

/// The sources of `icons`, if each of them names one.
pub fn sources_of(icons: &Vec<Option<String>>) -> (found: Option<Vec<String>>)
    ensures
        match found {
            Some(found) => all_sources(icons.deep_view()) && found.deep_view() == sources(
                icons.deep_view(),
            ),
            None => !all_sources(icons.deep_view()),
        },
{
    let mut found: Vec<String> = Vec::new();
    let mut i: usize = 0;
    while i < icons.len()
        invariant
            i <= icons@.len(),
            all_sources(icons.deep_view().take(i as int)),
            found.deep_view() =~= sources(icons.deep_view().take(i as int)),
        decreases icons@.len() - i,
    {
        let ghost before = found.deep_view();
        assert(icons.deep_view()[i as int] == icons@[i as int].deep_view());
        match &icons[i] {
            Some(source) => {
                found.push(source.clone());
                proof {
                    assert(found.deep_view() =~= before.push(source@));
                    assert(icons.deep_view().take(i + 1) =~= icons.deep_view().take(i as int).push(
                        icons.deep_view()[i as int],
                    ));
                }
            },
            None => {
                return None;
            },
        }
        i += 1;
    }
    assert(icons.deep_view().take(i as int) =~= icons.deep_view());
    Some(found)
}

/// The allergens that an allergen note lists, each once.
pub fn allergens_of(groups: &Option<Vec<Option<String>>>) -> (listed: Vec<String>)
    ensures
        listed.deep_view().no_duplicates(),
        listed.deep_view().to_set() == allergens_listed(groups.deep_view()),
{
    match groups {
        Some(groups) => match group(groups, 1) {
            Some(list) => unique(pieces(list.as_str(), ", ")),
            None => Vec::new(),
        },
        None => Vec::new(),
    }
}

impl Meal {
    /// The meal that `parts` describe.
    pub fn from_parts(parts: &MealParts) -> (meal: Result<Meal, Error>)
        ensures
            match meal {
                Ok(meal) => meal_of_parts(parts@) == Ok::<MealModel, ErrorModel>(meal@)
                    && meal.wf(),
                Err(error) => meal_of_parts(parts@) == Err::<MealModel, ErrorModel>(error@),
            },
    {
        let found = match sources_of(&parts.icons) {
            Some(found) => found,
            None => {
                return Err(Error::missing(ICONS_FIELD));
            },
        };
        let (lights, others) = icon_partition(&found);
        let color = match color_of_shown(&lights) {
            Ok(color) => color,
            Err(error) => {
                return Err(error);
            },
        };
        let tags = match tags_of_shown(&others) {
            Ok(tags) => tags,
            Err(error) => {
                return Err(error);
            },
        };
        let name = match &parts.name {
            Some(name) => trim(name.as_str()).to_owned(),
            None => {
                return Err(Error::missing(NAME_FIELD));
            },
        };
        let price = match &parts.price {
            Some(block) => match Price::parse(block.as_str()) {
                Ok(price) => Some(price),
                Err(_) => None,
            },
            None => None,
        };
        let allergens = allergens_of(&parts.allergens);
        Ok(Meal { name, color, tags, price, allergens })
    }
}

/// The selector of the icons of a meal.
pub const ICON_RULE: &'static str = "img[src].splIcon";

/// The text of [`ICON_RULE`].
pub open spec fn icon_rule() -> Seq<char> {
    ICON_RULE@
}

/// The selector of the name of a meal.
pub const NAME_RULE: &'static str = "span.bold";

/// The text of [`NAME_RULE`].
pub open spec fn name_rule() -> Seq<char> {
    NAME_RULE@
}

/// The selector of the price block of a meal.
pub const PRICE_RULE: &'static str = "div.text-right";

/// The text of [`PRICE_RULE`].
pub open spec fn price_rule() -> Seq<char> {
    PRICE_RULE@
}

/// The selector of the allergen note of a meal.
pub const NOTE_RULE: &'static str = ".toolt";

/// The text of [`NOTE_RULE`].
pub open spec fn note_rule() -> Seq<char> {
    NOTE_RULE@
}

/// The expression that matches a list in parentheses: group 1 is what stands
/// between the first opening and the last closing parenthesis of a line.
pub const LIST_RULE: &'static str = "\\((.*)\\)";

/// The text of [`LIST_RULE`].
pub open spec fn list_rule() -> Seq<char> {
    LIST_RULE@
}

/// The sources that the icons `found` name.
pub open spec fn icon_sources(found: Seq<scraper::ElementRef<'static>>) -> Seq<Option<Seq<char>>> {
    found.map_values(|icon: scraper::ElementRef| element_attr(icon, "src"@))
}

/// The groups that the list rule matches in the allergen note, if there is
/// a note and it has a list.
pub open spec fn note_groups(note: Option<Seq<char>>, list: regex::Regex) -> Option<
    Seq<Option<Seq<char>>>,
> {
    match note {
        Some(text) => first_match(list, text),
        None => None,
    }
}

/// The parts of the meal that `element` holds. Only a rule that `scraper` or
/// `regex` does not accept makes this fail.
pub open spec fn meal_parts_of(element: scraper::ElementRef) -> Result<MealPartsModel, ErrorModel> {
    match selector_of(icon_rule()) {
        None => Err(missing(icon_rule())),
        Some(icon) => match selector_of(name_rule()) {
            None => Err(missing(name_rule())),
            Some(name) => match selector_of(price_rule()) {
                None => Err(missing(price_rule())),
                Some(price) => match selector_of(note_rule()) {
                    None => Err(missing(note_rule())),
                    Some(note) => match compiled(list_rule()) {
                        None => Err(missing(list_rule())),
                        Some(list) => Ok(
                            MealPartsModel {
                                icons: icon_sources(element_matches(element, icon)),
                                name: first_inner_html_below(element, name),
                                price: first_inner_html_below(element, price),
                                allergens: note_groups(
                                    first_inner_html_below(element, note),
                                    list,
                                ),
                            },
                        ),
                    },
                },
            },
        },
    }
}

/// The allergens that the note `note` lists: the parts of the list that the
/// list rule finds in it.
pub open spec fn allergens_in_note(note: Seq<char>) -> Result<Set<Seq<char>>, ErrorModel> {
    match compiled(list_rule()) {
        None => Err(missing(list_rule())),
        Some(list) => Ok(allergens_listed(first_match(list, note))),
    }
}

/// The allergens that the note `note` lists, each once.
pub fn allergens_in(note: &str) -> (listed: Result<Vec<String>, Error>)
    ensures
        match listed {
            Ok(listed) => allergens_in_note(note@) == Ok::<Set<Seq<char>>, ErrorModel>(
                listed.deep_view().to_set(),
            ) && listed.deep_view().no_duplicates(),
            Err(error) => allergens_in_note(note@) == Err::<Set<Seq<char>>, ErrorModel>(error@),
        },
{
    let list = expression(LIST_RULE)?;
    Ok(allergens_of(&captures(&list, note)))
}

/// The prices that the price block below `element` writes. An element
/// without a price block fails as a block that cannot be read does.
pub open spec fn price_in(element: scraper::ElementRef) -> Result<Price, ErrorModel> {
    match selector_of(price_rule()) {
        None => Err(missing(price_rule())),
        Some(price) => match first_inner_html_below(element, price) {
            Some(text) => price_of(text),
            None => Err(missing(price_field())),
        },
    }
}

impl Price {
    /// The prices that the price block below `element` writes.
    pub fn try_from(element: scraper::ElementRef) -> (price: Result<Price, Error>)
        ensures
            match price {
                Ok(price) => price_in(element) == Ok::<Price, ErrorModel>(price),
                Err(error) => price_in(element) == Err::<Price, ErrorModel>(error@),
            },
    {
        let rule = selector(PRICE_RULE)?;
        match first_inner_html(element, &rule) {
            Some(text) => Price::parse(text.as_str()),
            None => Err(Error::missing(PRICE_FIELD)),
        }
    }
}

/// The meal that `element` holds.
pub open spec fn meal_of(element: scraper::ElementRef) -> Result<MealModel, ErrorModel> {
    match meal_parts_of(element) {
        Ok(parts) => meal_of_parts(parts),
        Err(error) => Err(error),
    }
}

impl Meal {
    /// Takes the parts of a meal out of the element that holds it.
    pub fn read(element: scraper::ElementRef) -> (parts: Result<MealParts, Error>)
        ensures
            match parts {
                Ok(parts) => meal_parts_of(element) == Ok::<MealPartsModel, ErrorModel>(parts@),
                Err(error) => meal_parts_of(element) == Err::<MealPartsModel, ErrorModel>(
                    error@,
                ),
            },
    {
        let icon = selector(ICON_RULE)?;
        let name = selector(NAME_RULE)?;
        let price = selector(PRICE_RULE)?;
        let note = selector(NOTE_RULE)?;
        let list = expression(LIST_RULE)?;
        let found = select(element, &icon);
        let mut icons: Vec<Option<String>> = Vec::new();
        let mut i: usize = 0;
        while i < found.len()
            invariant
                i <= found@.len(),
                icons.deep_view() =~= icon_sources(found@.take(i as int)),
            decreases found@.len() - i,
        {
            let ghost before = icons.deep_view();
            let source = attr(found[i], "src");
            icons.push(source);
            proof {
                assert(icons.deep_view() =~= before.push(source.deep_view()));
                assert(found@.take(i + 1) =~= found@.take(i as int).push(found@[i as int]));
            }
            i += 1;
        }
        assert(found@.take(i as int) =~= found@);
        let allergens = match first_inner_html(element, &note) {
            Some(text) => captures(&list, text.as_str()),
            None => None,
        };
        Ok(
            MealParts {
                icons,
                name: first_inner_html(element, &name),
                price: first_inner_html(element, &price),
                allergens,
            },
        )
    }

    /// The meal that `element` holds.
    pub fn try_from(element: scraper::ElementRef) -> (meal: Result<Meal, Error>)
        ensures
            match meal {
                Ok(meal) => meal_of(element) == Ok::<MealModel, ErrorModel>(meal@) && meal.wf(),
                Err(error) => meal_of(element) == Err::<MealModel, ErrorModel>(error@),
            },
    {
        let parts = Meal::read(element)?;
        Meal::from_parts(&parts)
    }
}

/// A note that lists allergens without commas in them, with a comma and a
/// space between them, lists those allergens; a note without a list lists
/// none.
pub proof fn lemma_allergens_listed(groups: Seq<Option<Seq<char>>>, allergens: Seq<Seq<char>>)
    requires
        allergens.len() > 0,
        forall|a: int, i: int|
            0 <= a < allergens.len() && 0 <= i < allergens[a].len() ==> #[trigger] allergens[a][i]
                != ',',
        group_text(groups, 1) == Some(joined(allergens, list_separator())),
    ensures
        allergens_listed(Some(groups)) == allergens.to_set(),
        allergens_listed(None) == Set::<Seq<char>>::empty(),
{
    reveal_strlit(", ");
    assert(list_separator().len() == 2 && list_separator()[0] == ',');
    lemma_split_joined(allergens, list_separator());
}

/// Whether the image at `uri` stands for nothing that is known: no color and
/// no tag.
pub open spec fn unknown_icon(uri: Seq<char>) -> bool {
    color_of_icon(uri) is None && tag_of_icon(uri) is None
}

/// Whether one of the icons of `parts` is unknown.
pub open spec fn has_unknown_icon(parts: MealPartsModel) -> bool {
    exists|i: int|
        0 <= i < parts.icons.len() && (#[trigger] parts.icons[i]) is Some && unknown_icon(
            parts.icons[i].unwrap(),
        )
}

/// Parts with an unknown icon make no meal: they fail, and the failure names
/// the icons, the color or the tags.
pub proof fn lemma_unknown_icon_fails(parts: MealPartsModel)
    requires
        has_unknown_icon(parts),
    ensures
        meal_of_parts(parts) == Err::<MealModel, ErrorModel>(missing(ICONS_FIELD@))
            || meal_of_parts(parts) == Err::<MealModel, ErrorModel>(missing(color_field()))
            || meal_of_parts(parts) == Err::<MealModel, ErrorModel>(missing(tags_field())),
{
    if all_sources(parts.icons) {
        let i = choose|i: int|
            0 <= i < parts.icons.len() && (#[trigger] parts.icons[i]) is Some && unknown_icon(
                parts.icons[i].unwrap(),
            );
        let uris = sources(parts.icons);
        let uri = uris[i];
        assert(uri == parts.icons[i].unwrap());
        if is_color_icon(uri) {
            let light = |uri: Seq<char>| is_color_icon(uri);
            uris.lemma_filter_contains(light, i);
            let k = choose|k: int| 0 <= k < color_icons(uris).len() && color_icons(uris)[k] == uri;
            assert(color_of_icon(color_icons(uris)[k]) is None);
        } else {
            let dark = |uri: Seq<char>| !is_color_icon(uri);
            uris.lemma_filter_contains(dark, i);
            let k = choose|k: int| 0 <= k < tag_icons(uris).len() && tag_icons(uris)[k] == uri;
            assert(tag_of_icon(tag_icons(uris)[k]) is None);
        }
    }
}

/// The element of meal `meal` of group `group` of `page`, counted in page
/// order, if the page has such a meal.
pub open spec fn meal_at(page: scraper::Html, group: int, meal: int) -> Option<
    scraper::ElementRef<'static>,
> {
    match selector_of(group_rule()) {
        Some(groups) => match selector_of(meal_rule()) {
            Some(meals) => {
                let found = page_matches(page, groups);
                if 0 <= group < found.len() {
                    let held = element_matches(found[group], meals);
                    if 0 <= meal < held.len() {
                        Some(held[meal])
                    } else {
                        None
                    }
                } else {
                    None
                }
            },
            None => None,
        },
        None => None,
    }
}

/// A page with a meal that fails fails: no meal is passed over.
pub proof fn lemma_failing_meal_fails_page(page: scraper::Html, group: int, meal: int)
    ensures
        (meal_at(page, group, meal) matches Some(held) && meal_of(held) is Err) ==> menu_of(
            page,
        ) is Err,
{
    if meal_at(page, group, meal) matches Some(held) && meal_of(held) is Err {
        let groups = page_matches(page, selector_of(group_rule()).unwrap());
        let meals = element_matches(groups[group], selector_of(meal_rule()).unwrap());
        lemma_try_map_fails(meals, |held: scraper::ElementRef| meal_of(held), meal);
        assert(meal_group_of(groups[group]) is Err);
        lemma_try_map_fails(groups, |held: scraper::ElementRef| meal_group_of(held), group);
    }
}

/// Whether meal `meal` of group `group` of `page` has an unknown icon.
pub open spec fn unknown_icon_at(page: scraper::Html, group: int, meal: int) -> bool {
    match meal_at(page, group, meal) {
        Some(held) => match meal_parts_of(held) {
            Ok(parts) => has_unknown_icon(parts),
            Err(_) => false,
        },
        None => false,
    }
}

/// A page with a meal that has an unknown icon fails, and the failure names
/// a field: the meal is not passed over.
pub proof fn lemma_unknown_icon_fails_page(page: scraper::Html, group: int, meal: int)
    ensures
        unknown_icon_at(page, group, meal) ==> (menu_of(page) matches Err(error)
            && error is Parse),
{
    if unknown_icon_at(page, group, meal) {
        let held = meal_at(page, group, meal)->0;
        lemma_unknown_icon_fails(meal_parts_of(held)->Ok_0);
        lemma_failing_meal_fails_page(page, group, meal);
    }
}

/// The selector of the heading of a group of meals.
pub const HEADING_RULE: &'static str = ".splGroup";

/// The text of [`HEADING_RULE`].
pub open spec fn heading_rule() -> Seq<char> {
    HEADING_RULE@
}

/// The selector of the meals of a group.
pub const MEAL_RULE: &'static str = ".splMeal";

/// The text of [`MEAL_RULE`].
pub open spec fn meal_rule() -> Seq<char> {
    MEAL_RULE@
}

/// The selector of the groups of a menu page.
pub const GROUP_RULE: &'static str = ".splGroupWrapper";

/// The text of [`GROUP_RULE`].
pub open spec fn group_rule() -> Seq<char> {
    GROUP_RULE@
}

/// The group of meals that `element` holds: its heading and its meals in
/// page order. A group without a heading fails, an empty heading counting
/// as none, and so does a group with a meal that fails.
pub open spec fn meal_group_of(element: scraper::ElementRef) -> Result<
    GroupModel<MealModel>,
    ErrorModel,
> {
    match selector_of(heading_rule()) {
        None => Err(missing(heading_rule())),
        Some(heading) => match selector_of(meal_rule()) {
            None => Err(missing(meal_rule())),
            Some(meal) => match heading_of(first_inner_html_below(element, heading)) {
                None => Err(missing(GROUP_NAME_FIELD@)),
                Some(name) => match try_map(
                    element_matches(element, meal),
                    |held: scraper::ElementRef| meal_of(held),
                ) {
                    Err(error) => Err(within(GROUP_ITEMS_FIELD@, error)),
                    Ok(items) => Ok(GroupModel { name, items }),
                },
            },
        },
    }
}

/// The menu that `page` holds: its groups in page order, without those that
/// list no meal. A page with a group that fails fails.
pub open spec fn menu_of(page: scraper::Html) -> Result<Seq<GroupModel<MealModel>>, ErrorModel> {
    match selector_of(group_rule()) {
        None => Err(missing(group_rule())),
        Some(group) => match try_map(
            page_matches(page, group),
            |held: scraper::ElementRef| meal_group_of(held),
        ) {
            Err(error) => Err(within(GROUPS_FIELD@, error)),
            Ok(groups) => Ok(groups.filter(|group: GroupModel<MealModel>| group.items.len() > 0)),
        },
    }
}

/// Whether every meal of `groups` lists each tag and each allergen once.
pub open spec fn meals_wf(groups: Seq<Group<Meal>>) -> bool {
    forall|g: int, i: int|
        0 <= g < groups.len() && 0 <= i < groups[g].items@.len() ==> (
        #[trigger] groups[g].items@[i]).wf()
}

impl Group<Meal> {
    /// The group of meals that `element` holds.
    #[verifier::loop_isolation(false)]
    pub fn try_from(element: scraper::ElementRef) -> (group: Result<Group<Meal>, Error>)
        ensures
            match group {
                Ok(group) => meal_group_of(element) == Ok::<GroupModel<MealModel>, ErrorModel>(
                    group.deep(),
                ) && group@.name.len() >= 1 && forall|i: int|
                    0 <= i < group.items@.len() ==> (#[trigger] group.items@[i]).wf(),
                Err(error) => meal_group_of(element) == Err::<GroupModel<MealModel>, ErrorModel>(
                    error@,
                ),
            },
    {
        let heading = selector(HEADING_RULE)?;
        let meal = selector(MEAL_RULE)?;
        let name = match heading_text(first_inner_html(element, &heading)) {
            Some(name) => name,
            None => {
                return Err(Error::missing(GROUP_NAME_FIELD));
            },
        };
        let found = select(element, &meal);
        let ghost read = |held: scraper::ElementRef| meal_of(held);
        let mut items: Vec<Meal> = Vec::new();
        let mut i: usize = 0;
        assert(found@.take(0) =~= Seq::empty());
        assert(items@.map_values(|item: Meal| item@) =~= Seq::empty());
        while i < found.len()
            invariant
                i <= found@.len(),
                read == |held: scraper::ElementRef| meal_of(held),
                try_map(found@.take(i as int), read) == Ok::<Seq<MealModel>, ErrorModel>(
                    items@.map_values(|item: Meal| item@),
                ),
                forall|k: int| 0 <= k < items@.len() ==> (#[trigger] items@[k]).wf(),
            decreases found@.len() - i,
        {
            let ghost before = items@.map_values(|item: Meal| item@);
            proof {
                assert(found@.take(i + 1).drop_last() =~= found@.take(i as int));
            }
            match Meal::try_from(found[i]) {
                Ok(item) => {
                    items.push(item);
                    assert(items@.map_values(|item: Meal| item@) =~= before.push(item@));
                },
                Err(error) => {
                    proof {
                        lemma_try_map_prefix_fails(found@, read, i + 1);
                    }
                    return Err(Error::within(GROUP_ITEMS_FIELD, error));
                },
            }
            i += 1;
        }
        assert(found@.take(i as int) =~= found@);
        Ok(Group { name, items })
    }
}

impl Response<Meal> {
    /// The menu that `page` holds.
    #[verifier::loop_isolation(false)]
    pub fn try_from(page: scraper::Html) -> (menu: Result<Response<Meal>, Error>)
        ensures
            match menu {
                Ok(menu) => menu_of(page) == Ok::<Seq<GroupModel<MealModel>>, ErrorModel>(
                    menu.deep(),
                ) && no_group_empty(menu@) && all_named(menu@) && meals_wf(menu.0@),
                Err(error) => menu_of(page) == Err::<Seq<GroupModel<MealModel>>, ErrorModel>(
                    error@,
                ),
            },
    {
        let group = selector(GROUP_RULE)?;
        let found = select_in_page(&page, &group);
        let ghost read = |held: scraper::ElementRef| meal_group_of(held);
        let ghost full = |group: GroupModel<MealModel>| group.items.len() > 0;
        let ghost all: Seq<GroupModel<MealModel>> = Seq::empty();
        let mut groups: Vec<Group<Meal>> = Vec::new();
        let mut i: usize = 0;
        proof {
            assert(found@.take(0) =~= Seq::empty());
            reveal(Seq::filter);
            assert(groups@.map_values(|group: Group<Meal>| group.deep()) =~= all.filter(full));
        }
        while i < found.len()
            invariant
                i <= found@.len(),
                read == |held: scraper::ElementRef| meal_group_of(held),
                full == |group: GroupModel<MealModel>| group.items.len() > 0,
                try_map(found@.take(i as int), read) == Ok::<
                    Seq<GroupModel<MealModel>>,
                    ErrorModel,
                >(all),
                groups@.map_values(|group: Group<Meal>| group.deep()) == all.filter(full),
                forall|g: int| 0 <= g < groups@.len() ==> (#[trigger] groups@[g]).items@.len() >= 1,
                forall|g: int| 0 <= g < groups@.len() ==> (#[trigger] groups@[g]).name@.len() >= 1,
                meals_wf(groups@),
            decreases found@.len() - i,
        {
            let ghost before = groups@.map_values(|group: Group<Meal>| group.deep());
            proof {
                assert(found@.take(i + 1).drop_last() =~= found@.take(i as int));
            }
            match Group::<Meal>::try_from(found[i]) {
                Ok(group) => {
                    proof {
                        all.lemma_filter_push(group.deep(), full);
                        all = all.push(group.deep());
                    }
                    if group.items.len() > 0 {
                        let ghost held = group;
                        let ghost old_groups = groups@;
                        groups.push(group);
                        proof {
                            assert(groups@.map_values(|group: Group<Meal>| group.deep())
                                =~= before.push(held.deep()));
                            assert forall|g: int, k: int|
                                0 <= g < groups@.len() && 0 <= k < groups@[g].items@.len() implies (
                            #[trigger] groups@[g].items@[k]).wf() by {
                                if g < old_groups.len() {
                                    assert(old_groups[g].items@[k].wf());
                                }
                            }
                            assert forall|g: int| 0 <= g < groups@.len() implies (
                            #[trigger] groups@[g]).items@.len() >= 1 by {
                                if g < old_groups.len() {
                                    assert(old_groups[g].items@.len() >= 1);
                                }
                            }
                            assert forall|g: int| 0 <= g < groups@.len() implies (
                            #[trigger] groups@[g]).name@.len() >= 1 by {
                                if g < old_groups.len() {
                                    assert(old_groups[g].name@.len() >= 1);
                                }
                            }
                        }
                    }
                },
                Err(error) => {
                    proof {
                        lemma_try_map_prefix_fails(found@, read, i + 1);
                    }
                    return Err(Error::within(GROUPS_FIELD, error));
                },
            }
            i += 1;
        }
        assert(found@.take(i as int) =~= found@);
        let menu = Response(groups);
        proof {
            assert forall|g: int| 0 <= g < menu@.len() implies (#[trigger] menu@[g]).items.len()
                >= 1 by {
                assert(menu.0@[g].items@.len() >= 1);
            }
            assert forall|g: int| 0 <= g < menu@.len() implies (#[trigger] menu@[g]).name.len()
                >= 1 by {
                assert(menu.0@[g].name@.len() >= 1);
            }
            assert(menu.deep() =~= menu.0@.map_values(|group: Group<Meal>| group.deep()));
        }
        Ok(menu)
    }
}

/// What `options` leave of the menu that the page fragment `text` holds. A
/// page that cannot be read fails as the response that it should have been.
pub open spec fn menu_wanted(options: MenuOptionsModel, text: Seq<char>) -> Result<
    Seq<GroupModel<MealModel>>,
    ErrorModel,
> {
    match menu_of(fragment_of(text)) {
        Ok(menu) => Ok(filtered(menu, |meal: MealModel| meal_passes(options, meal))),
        Err(error) => Err(within(MENU_FIELD@, error)),
    }
}

/// The menu that the page fragment `text` holds, with the meals that
/// `options` ask for and without the groups that have none of them.
pub fn get(options: MenuOptions, text: &str) -> (menu: Result<Response<Meal>, Error>)
    ensures
        match menu {
            Ok(menu) => menu_wanted(options@, text@) == Ok::<
                Seq<GroupModel<MealModel>>,
                ErrorModel,
            >(menu.deep()) && no_group_empty(menu@) && all_named(menu@),
            Err(error) => menu_wanted(options@, text@) == Err::<
                Seq<GroupModel<MealModel>>,
                ErrorModel,
            >(error@),
        },
{
    let page = parse_fragment(text);
    match Response::<Meal>::try_from(page) {
        Ok(menu) => {
            let ghost full = menu@;
            let wanted = |meal: &Meal| -> (wanted: bool)
                ensures
                    wanted == meal_passes(options@, meal@),
                { options.meal_matches(meal) };
            let kept = menu.filter(wanted);
            proof {
                let passes = |meal: MealModel| meal_passes(options@, meal);
                lemma_filtered_agree(
                    full,
                    |meal: Meal| accepts(wanted, meal),
                    |meal: Meal| passes(meal@),
                );
                lemma_filtered_deep(full, passes);
            }
            Ok(kept)
        },
        Err(error) => Err(Error::within(MENU_FIELD, error)),
    }
}

} // verus!
