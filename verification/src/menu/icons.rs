//! The icons of a meal: one for its traffic-light color, and one for each of
//! its tags. The site uses a fixed set of images, listed here.

use vstd::prelude::*;
use vstd::seq_lib::lemma_filter_view_commute;
use vstd::string::StringExecFns;
use crate::error::{missing, Error, ErrorModel};
use crate::text::{contains, has, same};
use crate::utility::{accepts, lemma_filter_agree, partition};

verus! {

/// How a meal is rated: green is best.
#[derive(Debug, Clone, Copy, PartialEq, Eq, Hash, Structural)]
pub enum Color {
    Green,
    Yellow,
    Red,
}

/// What a meal is marked as.
#[derive(Debug, Clone, Copy, PartialEq, Eq, Hash, Structural)]
pub enum Tag {
    Vegetarian,
    Vegan,
    Organic,
    SustainableFishing,
    ClimateFriendly,
}

/// The color that the image at `uri` stands for.
pub open spec fn color_of_icon(uri: Seq<char>) -> Option<Color> {
    if uri == "/vendor/infomax/mensen/icons/ampel_gelb_70x65.png"@ {
        Some(Color::Yellow)
    } else if uri == "/vendor/infomax/mensen/icons/ampel_gruen_70x65.png"@ {
        Some(Color::Green)
    } else if uri == "/vendor/infomax/mensen/icons/ampel_rot_70x65.png"@ {
        Some(Color::Red)
    } else {
        None
    }
}

/// The tag that the image at `uri` stands for.
pub open spec fn tag_of_icon(uri: Seq<char>) -> Option<Tag> {
    if uri == "/vendor/infomax/mensen/icons/1.png"@ {
        Some(Tag::Vegetarian)
    } else if uri == "/vendor/infomax/mensen/icons/15.png"@ {
        Some(Tag::Vegan)
    } else if uri == "/vendor/infomax/mensen/icons/18.png"@ {
        Some(Tag::Organic)
    } else if uri == "/vendor/infomax/mensen/icons/38.png"@ {
        Some(Tag::SustainableFishing)
    } else if uri == "/vendor/infomax/mensen/icons/43.png"@ {
        Some(Tag::ClimateFriendly)
    } else {
        None
    }
}

/// The color that `name` spells.
pub open spec fn color_of_name(name: Seq<char>) -> Option<Color> {
    if name == "green"@ {
        Some(Color::Green)
    } else if name == "yellow"@ {
        Some(Color::Yellow)
    } else if name == "red"@ {
        Some(Color::Red)
    } else {
        None
    }
}

/// The tag that `name` spells.
pub open spec fn tag_of_name(name: Seq<char>) -> Option<Tag> {
    if name == "vegan"@ {
        Some(Tag::Vegan)
    } else if name == "vegetarian"@ {
        Some(Tag::Vegetarian)
    } else if name == "organic"@ {
        Some(Tag::Organic)
    } else if name == "climate friendly"@ {
        Some(Tag::ClimateFriendly)
    } else if name == "sustainable fishing"@ {
        Some(Tag::SustainableFishing)
    } else {
        None
    }
}

/// What is said of a name that spells no color: these words around the name.
pub const NO_COLOR: (&'static str, &'static str) = (
    "Falsche Farbe: ",
    ". Bitte nutze green, yellow oder red.",
);

/// What is said of a name that spells no tag: these words around the name.
pub const NO_TAG: (&'static str, &'static str) = (
    "Wrong tag: ",
    ". Please use vegan, vegetarian, organic, climate friendly or sustainable fishing.",
);

/// `name` with `around` before and behind it.
pub open spec fn framed(around: (&'static str, &'static str), name: Seq<char>) -> Seq<char> {
    around.0@ + name + around.1@
}

/// `name` with `around` before and behind it.
pub fn frame(around: (&'static str, &'static str), name: &str) -> (message: String)
    ensures
        message@ == framed(around, name@),
{
    String::from_str(around.0).concat(name).concat(around.1)
}

impl Color {
    /// The color that the image at `uri` stands for.
    pub fn from_img_src(uri: &str) -> (color: Option<Color>)
        ensures
            color == color_of_icon(uri@),
    {
        if same(uri, "/vendor/infomax/mensen/icons/ampel_gelb_70x65.png") {
            Some(Color::Yellow)
        } else if same(uri, "/vendor/infomax/mensen/icons/ampel_gruen_70x65.png") {
            Some(Color::Green)
        } else if same(uri, "/vendor/infomax/mensen/icons/ampel_rot_70x65.png") {
            Some(Color::Red)
        } else {
            None
        }
    }

    /// How the color is spelled.
    pub open spec fn spelling(self) -> Seq<char> {
        match self {
            Color::Green => "green"@,
            Color::Yellow => "yellow"@,
            Color::Red => "red"@,
        }
    }

    /// How the color is spelled.
    pub fn name(&self) -> (name: &'static str)
        ensures
            name@ == self.spelling(),
    {
        match self {
            Color::Green => "green",
            Color::Yellow => "yellow",
            Color::Red => "red",
        }
    }

    /// The color that `name` spells, or a message that says which names
    /// there are.
    pub fn parse(name: &str) -> (color: Result<Color, String>)
        ensures
            match color {
                Ok(color) => color_of_name(name@) == Some(color),
                Err(message) => color_of_name(name@) is None && message@ == framed(
                    NO_COLOR,
                    name@,
                ),
            },
    {
        if same(name, "green") {
            Ok(Color::Green)
        } else if same(name, "yellow") {
            Ok(Color::Yellow)
        } else if same(name, "red") {
            Ok(Color::Red)
        } else {
            Err(frame(NO_COLOR, name))
        }
    }
}

impl core::str::FromStr for Color {
    type Err = String;

    /// The color that `name` spells, or a message that says which names
    /// there are.
    fn from_str(name: &str) -> (color: Result<Color, String>)
        ensures
            match color {
                Ok(color) => color_of_name(name@) == Some(color),
                Err(message) => color_of_name(name@) is None && message@ == framed(
                    NO_COLOR,
                    name@,
                ),
            },
    {
        Color::parse(name)
    }
}

impl Tag {
    /// The tag that the image at `uri` stands for.
    pub fn from_img_src(uri: &str) -> (tag: Option<Tag>)
        ensures
            tag == tag_of_icon(uri@),
    {
        if same(uri, "/vendor/infomax/mensen/icons/1.png") {
            Some(Tag::Vegetarian)
        } else if same(uri, "/vendor/infomax/mensen/icons/15.png") {
            Some(Tag::Vegan)
        } else if same(uri, "/vendor/infomax/mensen/icons/18.png") {
            Some(Tag::Organic)
        } else if same(uri, "/vendor/infomax/mensen/icons/38.png") {
            Some(Tag::SustainableFishing)
        } else if same(uri, "/vendor/infomax/mensen/icons/43.png") {
            Some(Tag::ClimateFriendly)
        } else {
            None
        }
    }

    /// How the tag is spelled.
    pub open spec fn spelling(self) -> Seq<char> {
        match self {
            Tag::Vegetarian => "vegetarian"@,
            Tag::Vegan => "vegan"@,
            Tag::Organic => "organic"@,
            Tag::SustainableFishing => "sustainable fishing"@,
            Tag::ClimateFriendly => "climate friendly"@,
        }
    }

    /// How the tag is spelled.
    pub fn name(&self) -> (name: &'static str)
        ensures
            name@ == self.spelling(),
    {
        match self {
            Tag::Vegetarian => "vegetarian",
            Tag::Vegan => "vegan",
            Tag::Organic => "organic",
            Tag::SustainableFishing => "sustainable fishing",
            Tag::ClimateFriendly => "climate friendly",
        }
    }

    /// The tag that `name` spells, or a message that says which names there
    /// are.
    pub fn parse(name: &str) -> (tag: Result<Tag, String>)
        ensures
            match tag {
                Ok(tag) => tag_of_name(name@) == Some(tag),
                Err(message) => tag_of_name(name@) is None && message@ == framed(NO_TAG, name@),
            },
    {
        if same(name, "vegan") {
            Ok(Tag::Vegan)
        } else if same(name, "vegetarian") {
            Ok(Tag::Vegetarian)
        } else if same(name, "organic") {
            Ok(Tag::Organic)
        } else if same(name, "climate friendly") {
            Ok(Tag::ClimateFriendly)
        } else if same(name, "sustainable fishing") {
            Ok(Tag::SustainableFishing)
        } else {
            Err(frame(NO_TAG, name))
        }
    }
}

impl core::str::FromStr for Tag {
    type Err = String;

    /// The tag that `name` spells, or a message that says which names there
    /// are.
    fn from_str(name: &str) -> (tag: Result<Tag, String>)
        ensures
            match tag {
                Ok(tag) => tag_of_name(name@) == Some(tag),
                Err(message) => tag_of_name(name@) is None && message@ == framed(NO_TAG, name@),
            },
    {
        Tag::parse(name)
    }
}

/// The name of a color spells that color: reading follows writing.
pub proof fn lemma_color_spelling(color: Color)
    ensures
        color_of_name(color.spelling()) == Some(color),
{
    reveal_strlit("green");
    reveal_strlit("yellow");
    reveal_strlit("red");
    assert("green"@.len() == 5 && "yellow"@.len() == 6 && "red"@.len() == 3);
}

/// The name of a tag spells that tag: reading follows writing.
pub proof fn lemma_tag_spelling(tag: Tag)
    ensures
        tag_of_name(tag.spelling()) == Some(tag),
{
    reveal_strlit("vegan");
    reveal_strlit("vegetarian");
    reveal_strlit("organic");
    reveal_strlit("climate friendly");
    reveal_strlit("sustainable fishing");
    assert("vegan"@.len() == 5 && "vegetarian"@.len() == 10 && "organic"@.len() == 7);
    assert("climate friendly"@.len() == 16 && "sustainable fishing"@.len() == 19);
}

/// Whether the image at `uri` shows a traffic light: such an image stands
/// for the color of a meal, any other for a tag.
pub open spec fn is_color_icon(uri: Seq<char>) -> bool {
    contains(uri, "ampel"@)
}

/// The images of `icons` that show a traffic light.
pub open spec fn color_icons(icons: Seq<Seq<char>>) -> Seq<Seq<char>> {
    icons.filter(|uri: Seq<char>| is_color_icon(uri))
}

/// The images of `icons` that show no traffic light.
pub open spec fn tag_icons(icons: Seq<Seq<char>>) -> Seq<Seq<char>> {
    icons.filter(|uri: Seq<char>| !is_color_icon(uri))
}

/// Whether each image of `uris` stands for a color.
pub open spec fn all_colors(uris: Seq<Seq<char>>) -> bool {
    forall|i: int| 0 <= i < uris.len() ==> color_of_icon(#[trigger] uris[i]) is Some
}

/// Whether each image of `uris` stands for a tag.
pub open spec fn all_tags(uris: Seq<Seq<char>>) -> bool {
    forall|i: int| 0 <= i < uris.len() ==> tag_of_icon(#[trigger] uris[i]) is Some
}

/// The tags that the images of `uris` stand for.
pub open spec fn tags_shown(uris: Seq<Seq<char>>) -> Set<Tag> {
    Set::new(
        |tag: Tag|
            exists|i: int| 0 <= i < uris.len() && tag_of_icon(#[trigger] uris[i]) == Some(tag),
    )
}

/// What is reported where the color of a meal cannot be told.
pub const COLOR_FIELD: &'static str = "Meal::color";

/// The text of [`COLOR_FIELD`].
pub open spec fn color_field() -> Seq<char> {
    COLOR_FIELD@
}

/// What is reported where the tags of a meal cannot be told.
pub const TAGS_FIELD: &'static str = "Meal::tags";

/// The text of [`TAGS_FIELD`].
pub open spec fn tags_field() -> Seq<char> {
    TAGS_FIELD@
}

/// The color of a meal with the images `icons`: that of the first image that
/// shows a traffic light. There must be such an image, and each of them must
/// stand for a color.
pub open spec fn color_of_icons(icons: Seq<Seq<char>>) -> Result<Color, ErrorModel> {
    let shown = color_icons(icons);
    if shown.len() > 0 && all_colors(shown) {
        Ok(color_of_icon(shown[0]).unwrap())
    } else {
        Err(missing(color_field()))
    }
}

/// The tags of a meal with the images `icons`: those of the images that show
/// no traffic light, each of which must stand for a tag.
pub open spec fn tags_of_icons(icons: Seq<Seq<char>>) -> Result<Set<Tag>, ErrorModel> {
    let shown = tag_icons(icons);
    if all_tags(shown) {
        Ok(tags_shown(shown))
    } else {
        Err(missing(tags_field()))
    }
}

/// The images of `icons` that show a traffic light, and those that show
/// none.
pub fn icon_partition<'a>(icons: &'a Vec<String>) -> (parts: (Vec<&'a String>, Vec<&'a String>))
    ensures
        parts.0.deep_view() == color_icons(icons.deep_view()),
        parts.1.deep_view() == tag_icons(icons.deep_view()),
{
    let shows_light = |uri: &String| -> (light: bool)
        ensures
            light == is_color_icon(uri@),
        { has(uri.as_str(), "ampel") };
    let parts = partition(shows_light, icons.as_slice());
    proof {
        let light = |uri: String| is_color_icon(uri@);
        let dark = |uri: String| !is_color_icon(uri@);
        let view = |uri: String| uri@;
        lemma_filter_agree(icons@, |uri: String| accepts(shows_light, uri), light);
        lemma_filter_agree(icons@, |uri: String| !accepts(shows_light, uri), dark);
        lemma_filter_view_commute(icons@, light, |uri: Seq<char>| is_color_icon(uri));
        lemma_filter_view_commute(icons@, dark, |uri: Seq<char>| !is_color_icon(uri));
        assert(icons.deep_view() =~= icons@.map_values(view));
        assert(parts.0.deep_view() =~= parts.0@.map_values(|r: &String| *r).map_values(view));
        assert(parts.1.deep_view() =~= parts.1@.map_values(|r: &String| *r).map_values(view));
    }
    parts
}

/// The color of a meal whose images with a traffic light are `shown`.
pub fn color_of_shown(shown: &Vec<&String>) -> (color: Result<Color, Error>)
    ensures
        match color {
            Ok(color) => shown@.len() > 0 && all_colors(shown.deep_view()) && color_of_icon(
                shown.deep_view()[0],
            ) == Some(color),
            Err(error) => !(shown@.len() > 0 && all_colors(shown.deep_view())) && error@ == missing(
                color_field(),
            ),
        },
{
    if shown.len() == 0 {
        return Err(Error::missing(COLOR_FIELD));
    }
    let mut first: Option<Color> = None;
    let mut i: usize = 0;
    while i < shown.len()
        invariant
            i <= shown@.len(),
            shown@.len() > 0,
            forall|k: int| 0 <= k < i ==> color_of_icon(#[trigger] shown.deep_view()[k]) is Some,
            i > 0 ==> first == color_of_icon(shown.deep_view()[0]),
        decreases shown@.len() - i,
    {
        let color = Color::from_img_src(shown[i].as_str());
        assert(shown.deep_view()[i as int] == shown@[i as int]@);
        if color.is_none() {
            return Err(Error::missing(COLOR_FIELD));
        }
        if i == 0 {
            first = color;
        }
        i += 1;
    }
    match first {
        Some(color) => Ok(color),
        None => Err(Error::missing(COLOR_FIELD)),
    }
}

/// Puts `tag` into `tags` unless it is there.
pub fn insert_tag(tags: &mut Vec<Tag>, tag: Tag)
    requires
        old(tags)@.no_duplicates(),
    ensures
        final(tags)@.no_duplicates(),
        final(tags)@.to_set() == old(tags)@.to_set().insert(tag),
{
    let mut i: usize = 0;
    while i < tags.len()
        invariant
            i <= tags@.len(),
            tags@ == old(tags)@,
            tags@.no_duplicates(),
            forall|k: int| 0 <= k < i ==> tags@[k] != tag,
        decreases tags@.len() - i,
    {
        if tags[i] == tag {
            assert(tags@.to_set() =~= tags@.to_set().insert(tag));
            return ;
        }
        i += 1;
    }
    let ghost before = tags@;
    tags.push(tag);
    proof {
        assert forall|a: int, b: int| 0 <= a < b < tags@.len() implies tags@[a] != tags@[b] by {
            if b < before.len() {
                assert(before[a] != before[b]);
            }
        }
        assert(tags@.to_set() =~= before.to_set().insert(tag)) by {
            assert forall|t: Tag| tags@.to_set().contains(t) <==> before.to_set().insert(
                tag,
            ).contains(t) by {
                if tags@.contains(t) {
                    let k = choose|k: int| 0 <= k < tags@.len() && tags@[k] == t;
                    if k < before.len() {
                        assert(before[k] == t);
                    }
                }
                if before.contains(t) {
                    let k = choose|k: int| 0 <= k < before.len() && before[k] == t;
                    assert(tags@[k] == t);
                }
                if t == tag {
                    assert(tags@[before.len() as int] == t);
                }
            }
        }
    }
}

/// The tags of a meal whose images without a traffic light are `shown`, each
/// of them once.
pub fn tags_of_shown(shown: &Vec<&String>) -> (tags: Result<Vec<Tag>, Error>)
    ensures
        match tags {
            Ok(tags) => all_tags(shown.deep_view()) && tags@.no_duplicates() && tags@.to_set()
                == tags_shown(shown.deep_view()),
            Err(error) => !all_tags(shown.deep_view()) && error@ == missing(tags_field()),
        },
{
    let mut tags: Vec<Tag> = Vec::new();
    let mut i: usize = 0;
    assert(tags@.to_set() =~= tags_shown(shown.deep_view().take(0)));
    while i < shown.len()
        invariant
            i <= shown@.len(),
            all_tags(shown.deep_view().take(i as int)),
            tags@.no_duplicates(),
            tags@.to_set() == tags_shown(shown.deep_view().take(i as int)),
        decreases shown@.len() - i,
    {
        let ghost uris = shown.deep_view();
        assert(uris[i as int] == shown@[i as int]@);
        match Tag::from_img_src(shown[i].as_str()) {
            Some(tag) => {
                insert_tag(&mut tags, tag);
                proof {
                    let before = uris.take(i as int);
                    let after = uris.take(i + 1);
                    assert forall|k: int| 0 <= k < after.len() implies tag_of_icon(
                        #[trigger] after[k],
                    ) is Some by {
                        if k < i {
                            assert(tag_of_icon(before[k]) is Some);
                        }
                    }
                    assert(tags_shown(after) =~= tags_shown(before).insert(tag)) by {
                        assert forall|t: Tag| tags_shown(after).contains(t) <==> tags_shown(
                            before,
                        ).insert(tag).contains(t) by {
                            if tags_shown(after).contains(t) {
                                let k = choose|k: int|
                                    0 <= k < after.len() && tag_of_icon(#[trigger] after[k])
                                        == Some(t);
                                if k < i {
                                    assert(tag_of_icon(before[k]) == Some(t));
                                }
                            }
                            if tags_shown(before).contains(t) {
                                let k = choose|k: int|
                                    0 <= k < before.len() && tag_of_icon(#[trigger] before[k])
                                        == Some(t);
                                assert(tag_of_icon(after[k]) == Some(t));
                            }
                            if t == tag {
                                assert(tag_of_icon(after[i as int]) == Some(t));
                            }
                        }
                    }
                }
            },
            None => {
                return Err(Error::missing(TAGS_FIELD));
            },
        }
        i += 1;
    }
    assert(shown.deep_view().take(i as int) =~= shown.deep_view());
    Ok(tags)
}

} // verus!
