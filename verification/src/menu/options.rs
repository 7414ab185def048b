//! What a caller asks of a menu, and the test of a meal against it.

use vstd::prelude::*;
use crate::date::{date_of, iso_format, parse_iso_date};
use crate::menu::icons::{color_of_name, tag_of_name, Color, Tag};
use crate::menu::money::{cents_of, Cents, Price};
use crate::menu::{Meal, MealModel};
use crate::text::{holds, parse_unsigned, same, unsigned_of};
use crate::MensaCode;

verus! {

/// What a caller asks of a menu.
#[derive(Debug, Clone, PartialEq, Eq)]
pub struct MenuOptions {
    /// Only meals of these colors; of any color if there is none.
    pub colors: Vec<Color>,
    /// Only meals with one of these tags; any meal if there is none.
    pub tags: Vec<Tag>,
    /// No meal for which a student pays more.
    pub max_price: Option<Cents>,
    /// No meal that holds one of these allergens.
    pub allergens: Vec<String>,
    /// The day of the menu.
    pub date: Option<chrono::NaiveDate>,
    /// The dining facility.
    pub mensa: MensaCode,
}

/// The mathematical value of [`MenuOptions`].
pub struct MenuOptionsModel {
    pub colors: Seq<Color>,
    pub tags: Seq<Tag>,
    pub max_price: Option<Cents>,
    pub allergens: Seq<Seq<char>>,
    pub date: Option<chrono::NaiveDate>,
    pub mensa: MensaCode,
}

impl View for MenuOptions {
    type V = MenuOptionsModel;

    open spec fn view(&self) -> MenuOptionsModel {
        MenuOptionsModel {
            colors: self.colors@,
            tags: self.tags@,
            max_price: self.max_price,
            allergens: self.allergens.deep_view(),
            date: self.date,
            mensa: self.mensa,
        }
    }
}

/// Whether a meal at `price` is within `max`: without a limit every meal is,
/// with one only a meal whose price for students is known and no higher.
pub open spec fn price_ok(max: Option<Cents>, price: Option<Price>) -> bool {
    match max {
        None => true,
        Some(max) => match price {
            Some(price) => price.student.0 <= max.0,
            None => false,
        },
    }
}

/// Whether a meal of `color` is wanted.
pub open spec fn color_ok(wanted: Seq<Color>, color: Color) -> bool {
    wanted.len() == 0 || wanted.contains(color)
}

/// Whether `tag` answers a wish for one of `wanted`: it is wanted itself, or
/// it is vegan where vegetarian is wanted.
pub open spec fn tag_passes(wanted: Seq<Tag>, tag: Tag) -> bool {
    wanted.contains(tag) || (tag == Tag::Vegan && wanted.contains(Tag::Vegetarian))
}

/// Whether a meal with `tags` is wanted.
pub open spec fn tags_ok(wanted: Seq<Tag>, tags: Set<Tag>) -> bool {
    wanted.len() == 0 || exists|tag: Tag| tags.contains(tag) && #[trigger] tag_passes(wanted, tag)
}

/// Whether a meal with `allergens` holds none of `excluded`.
pub open spec fn allergens_ok(excluded: Seq<Seq<char>>, allergens: Set<Seq<char>>) -> bool {
    forall|allergen: Seq<char>|
        allergens.contains(allergen) ==> !#[trigger] excluded.contains(allergen)
}

/// Whether `meal` is what `options` ask for: in price, color, tags and
/// allergens.
pub open spec fn meal_passes(options: MenuOptionsModel, meal: MealModel) -> bool {
    &&& price_ok(options.max_price, meal.price)
    &&& color_ok(options.colors, meal.color)
    &&& tags_ok(options.tags, meal.tags)
    &&& allergens_ok(options.allergens, meal.allergens)
}

/// Whether `color` is among `colors`.
pub fn has_color(colors: &Vec<Color>, color: Color) -> (found: bool)
    ensures
        found == colors@.contains(color),
{
    let mut i: usize = 0;
    while i < colors.len()
        invariant
            i <= colors@.len(),
            forall|k: int| 0 <= k < i ==> colors@[k] != color,
        decreases colors@.len() - i,
    {
        if colors[i] == color {
            return true;
        }
        i += 1;
    }
    false
}

/// Whether `tag` is among `tags`.
pub fn has_tag(tags: &Vec<Tag>, tag: Tag) -> (found: bool)
    ensures
        found == tags@.contains(tag),
{
    let mut i: usize = 0;
    while i < tags.len()
        invariant
            i <= tags@.len(),
            forall|k: int| 0 <= k < i ==> tags@[k] != tag,
        decreases tags@.len() - i,
    {
        if tags[i] == tag {
            return true;
        }
        i += 1;
    }
    false
}

impl MenuOptions {
    /// Whether a meal with `tags` is wanted.
    pub fn wants_tags(&self, tags: &Vec<Tag>) -> (wanted: bool)
        ensures
            wanted == tags_ok(self.tags@, tags@.to_set()),
    {
        if self.tags.len() == 0 {
            return true;
        }
        let vegetarian = has_tag(&self.tags, Tag::Vegetarian);
        let mut i: usize = 0;
        while i < tags.len()
            invariant
                i <= tags@.len(),
                vegetarian == self.tags@.contains(Tag::Vegetarian),
                forall|k: int| 0 <= k < i ==> !tag_passes(self.tags@, #[trigger] tags@[k]),
            decreases tags@.len() - i,
        {
            let tag = tags[i];
            if has_tag(&self.tags, tag) || (tag == Tag::Vegan && vegetarian) {
                assert(tags@.to_set().contains(tag) && tag_passes(self.tags@, tag));
                return true;
            }
            i += 1;
        }
        proof {
            assert forall|tag: Tag| tags@.to_set().contains(tag) implies !#[trigger] tag_passes(
                self.tags@,
                tag,
            ) by {
                let k = choose|k: int| 0 <= k < tags@.len() && tags@[k] == tag;
                assert(!tag_passes(self.tags@, tags@[k]));
            }
        }
        false
    }

    /// Whether a meal with `allergens` holds none of the excluded ones.
    pub fn tolerates(&self, allergens: &Vec<String>) -> (fine: bool)
        ensures
            fine == allergens_ok(self.allergens.deep_view(), allergens.deep_view().to_set()),
    {
        let mut i: usize = 0;
        while i < allergens.len()
            invariant
                i <= allergens@.len(),
                forall|k: int|
                    0 <= k < i ==> !self.allergens.deep_view().contains(
                        #[trigger] allergens.deep_view()[k],
                    ),
            decreases allergens@.len() - i,
        {
            assert(allergens.deep_view()[i as int] == allergens@[i as int]@);
            if holds(&self.allergens, allergens[i].as_str()) {
                assert(allergens.deep_view().to_set().contains(allergens.deep_view()[i as int]));
                return false;
            }
            i += 1;
        }
        proof {
            assert forall|allergen: Seq<char>|
                allergens.deep_view().to_set().contains(
                    allergen,
                ) implies !#[trigger] self.allergens.deep_view().contains(allergen) by {
                let k = choose|k: int|
                    0 <= k < allergens.deep_view().len() && allergens.deep_view()[k] == allergen;
                assert(!self.allergens.deep_view().contains(allergens.deep_view()[k]));
            }
        }
        true
    }

    /// Whether `meal` is what the options ask for.
    pub fn meal_matches(&self, meal: &Meal) -> (wanted: bool)
        ensures
            wanted == meal_passes(self@, meal@),
    {
        let price_fine = match self.max_price {
            Some(max) => match &meal.price {
                Some(price) => price.student.0 <= max.0,
                None => false,
            },
            None => true,
        };
        let color_fine = self.colors.len() == 0 || has_color(&self.colors, meal.color);
        let tags_fine = self.wants_tags(&meal.tags);
        let allergens_fine = self.tolerates(&meal.allergens);
        price_fine && color_fine && tags_fine && allergens_fine
    }
}

/// The values that `query` gives `key`, in its order.
pub open spec fn values_of(query: Seq<(Seq<char>, Seq<char>)>, key: Seq<char>) -> Seq<Seq<char>> {
    query.filter(|item: (Seq<char>, Seq<char>)| item.0 == key).map_values(
        |item: (Seq<char>, Seq<char>)| item.1,
    )
}

/// The first value that `query` gives `key`.
pub open spec fn first_value(query: Seq<(Seq<char>, Seq<char>)>, key: Seq<char>) -> Option<
    Seq<char>,
> {
    let values = values_of(query, key);
    if values.len() > 0 {
        Some(values[0])
    } else {
        None
    }
}

/// The whole number no greater than `max` that the first value of `key`
/// writes, if there is such a value and it writes one.
pub open spec fn number_of(query: Seq<(Seq<char>, Seq<char>)>, key: Seq<char>, max: nat) -> Option<
    nat,
> {
    match first_value(query, key) {
        Some(text) => match unsigned_of(text, max) {
            Ok(number) => Some(number),
            Err(_) => None,
        },
        None => None,
    }
}

/// The highest price that `query` asks for: the money that the first value
/// of `max_price` writes as a decimal number of the currency's main unit, if
/// it writes one.
pub open spec fn max_price_of(query: Seq<(Seq<char>, Seq<char>)>) -> Option<Cents> {
    match first_value(query, "max_price"@) {
        Some(text) => match cents_of(text) {
            Ok(money) => Some(money),
            Err(_) => None,
        },
        None => None,
    }
}

/// The day that `query` asks for: the first value of `date`, if it writes a
/// date.
pub open spec fn day_of(query: Seq<(Seq<char>, Seq<char>)>) -> Option<chrono::NaiveDate> {
    match first_value(query, "date"@) {
        Some(text) => date_of(text, iso_format()),
        None => None,
    }
}

/// The options that the pairs of key and value of `query` write. The first
/// value of `mensa` must write the code of a facility. The first value of
/// `max_price` is a decimal number of the currency's main unit, that of
/// `date` a day; one that writes none is passed over. Every value of `color`,
/// `tag` and `allergen` counts, but for those that spell no color or tag.
pub open spec fn options_of_query(query: Seq<(Seq<char>, Seq<char>)>) -> Option<MenuOptionsModel> {
    match number_of(query, "mensa"@, u16::MAX as nat) {
        None => None,
        Some(code) => Some(
            MenuOptionsModel {
                colors: values_of(query, "color"@).filter_map(
                    |name: Seq<char>| color_of_name(name),
                ),
                tags: values_of(query, "tag"@).filter_map(|name: Seq<char>| tag_of_name(name)),
                max_price: max_price_of(query),
                allergens: values_of(query, "allergen"@),
                date: day_of(query),
                mensa: MensaCode(code as u16),
            },
        ),
    }
}

/// The values that `query` gives `key`, in its order.
pub fn query_values(key: &str, query: &Vec<(String, String)>) -> (values: Vec<String>)
    ensures
        values.deep_view() == values_of(query.deep_view(), key@),
{
    let ghost pairs = query.deep_view();
    let ghost named = |item: (Seq<char>, Seq<char>)| item.0 == key@;
    let ghost value = |item: (Seq<char>, Seq<char>)| item.1;
    let mut values: Vec<String> = Vec::new();
    let mut i: usize = 0;
    proof {
        reveal(Seq::filter);
        assert(pairs.take(0).filter(named) =~= Seq::empty());
    }
    while i < query.len()
        invariant
            i <= query@.len(),
            pairs == query.deep_view(),
            named == |item: (Seq<char>, Seq<char>)| item.0 == key@,
            value == |item: (Seq<char>, Seq<char>)| item.1,
            values.deep_view() =~= pairs.take(i as int).filter(named).map_values(value),
        decreases query@.len() - i,
    {
        let ghost before = values.deep_view();
        proof {
            assert(pairs[i as int] == (query@[i as int].0@, query@[i as int].1@));
            pairs.take(i as int).lemma_filter_push(pairs[i as int], named);
            assert(pairs.take(i + 1) =~= pairs.take(i as int).push(pairs[i as int]));
        }
        if same(query[i].0.as_str(), key) {
            values.push(query[i].1.clone());
            assert(values.deep_view() =~= before.push(query@[i as int].1@));
        }
        i += 1;
    }
    assert(pairs.take(i as int) =~= pairs);
    values
}

/// The first value that `query` gives `key`.
pub fn query_value(key: &str, query: &Vec<(String, String)>) -> (value: Option<String>)
    ensures
        value.deep_view() == first_value(query.deep_view(), key@),
{
    let values = query_values(key, query);
    if values.len() > 0 {
        assert(values.deep_view()[0] == values@[0]@);
        Some(values[0].clone())
    } else {
        None
    }
}

/// The whole number no greater than `max` that the first value of `key`
/// writes.
pub fn query_number(key: &str, query: &Vec<(String, String)>, max: u64) -> (number: Option<u64>)
    ensures
        match number {
            Some(n) => number_of(query.deep_view(), key@, max as nat) == Some(n as nat),
            None => number_of(query.deep_view(), key@, max as nat) is None,
        },
{
    match query_value(key, query) {
        Some(text) => match parse_unsigned(text.as_str(), max) {
            Ok(number) => Some(number),
            Err(_) => None,
        },
        None => None,
    }
}

/// The colors that `names` spell, without the names that spell none.
pub fn colors_named(names: &Vec<String>) -> (colors: Vec<Color>)
    ensures
        colors@ == names.deep_view().filter_map(|name: Seq<char>| color_of_name(name)),
{
    let ghost all = names.deep_view();
    let ghost spell = |name: Seq<char>| color_of_name(name);
    let mut colors: Vec<Color> = Vec::new();
    let mut i: usize = 0;
    assert(all.take(0).filter_map(spell) =~= Seq::empty());
    while i < names.len()
        invariant
            i <= names@.len(),
            all == names.deep_view(),
            spell == |name: Seq<char>| color_of_name(name),
            colors@ =~= all.take(i as int).filter_map(spell),
        decreases names@.len() - i,
    {
        proof {
            assert(all[i as int] == names@[i as int]@);
            all.lemma_filter_map_take_succ(spell, i as int);
        }
        match Color::parse(names[i].as_str()) {
            Ok(color) => {
                colors.push(color);
            },
            Err(_) => {},
        }
        i += 1;
    }
    assert(all.take(i as int) =~= all);
    colors
}

/// The tags that `names` spell, without the names that spell none.
pub fn tags_named(names: &Vec<String>) -> (tags: Vec<Tag>)
    ensures
        tags@ == names.deep_view().filter_map(|name: Seq<char>| tag_of_name(name)),
{
    let ghost all = names.deep_view();
    let ghost spell = |name: Seq<char>| tag_of_name(name);
    let mut tags: Vec<Tag> = Vec::new();
    let mut i: usize = 0;
    assert(all.take(0).filter_map(spell) =~= Seq::empty());
    while i < names.len()
        invariant
            i <= names@.len(),
            all == names.deep_view(),
            spell == |name: Seq<char>| tag_of_name(name),
            tags@ =~= all.take(i as int).filter_map(spell),
        decreases names@.len() - i,
    {
        proof {
            assert(all[i as int] == names@[i as int]@);
            all.lemma_filter_map_take_succ(spell, i as int);
        }
        match Tag::parse(names[i].as_str()) {
            Ok(tag) => {
                tags.push(tag);
            },
            Err(_) => {},
        }
        i += 1;
    }
    assert(all.take(i as int) =~= all);
    tags
}

impl MenuOptions {
    /// The options that the pairs of key and value of `query` write.
    pub fn from_query(query: &Vec<(String, String)>) -> (options: Result<MenuOptions, ()>)
        ensures
            match options {
                Ok(options) => options_of_query(query.deep_view()) == Some(options@),
                Err(_) => options_of_query(query.deep_view()) is None,
            },
    {
        let code: u64 = match query_number("mensa", query, 0xffff) {
            Some(code) => code,
            None => {
                return Err(());
            },
        };
        let max_price = match query_value("max_price", query) {
            Some(text) => match Cents::parse(text.as_str()) {
                Ok(money) => Some(money),
                Err(_) => None,
            },
            None => None,
        };
        let date = match query_value("date", query) {
            Some(text) => match parse_iso_date(text.as_str()) {
                Ok(date) => Some(date),
                Err(_) => None,
            },
            None => None,
        };
        Ok(
            MenuOptions {
                colors: colors_named(&query_values("color", query)),
                tags: tags_named(&query_values("tag", query)),
                max_price,
                allergens: query_values("allergen", query),
                date,
                mensa: MensaCode(code as u16),
            },
        )
    }
}

/// A vegan meal answers a wish for vegetarian meals.
pub proof fn lemma_vegan_is_vegetarian(wanted: Seq<Tag>, tags: Set<Tag>)
    requires
        wanted.contains(Tag::Vegetarian),
        tags.contains(Tag::Vegan),
    ensures
        tags_ok(wanted, tags),
{
    assert(tag_passes(wanted, Tag::Vegan));
}

/// A meal with none of the wanted tags answers the wish only by being vegan
/// where vegetarian is wanted.
pub proof fn lemma_unwanted_tags_fail(wanted: Seq<Tag>, tags: Set<Tag>)
    requires
        wanted.len() > 0,
        forall|tag: Tag| tags.contains(tag) ==> !wanted.contains(tag),
        !(tags.contains(Tag::Vegan) && wanted.contains(Tag::Vegetarian)),
    ensures
        !tags_ok(wanted, tags),
{
}

} // verus!
