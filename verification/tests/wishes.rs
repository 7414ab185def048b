use chrono::NaiveDate;
use menstruation::date::parse_iso_date;
use menstruation::menu::icons::{Color, Tag};
use menstruation::menu::money::{Cents, Price};
use menstruation::menu::options::{
    colors_named, has_color, has_tag, query_number, query_value, query_values, tags_named,
    MenuOptions,
};
use menstruation::menu::Meal;
use menstruation::MensaCode;

fn no_wishes() -> MenuOptions {
    MenuOptions {
        colors: vec![],
        tags: vec![],
        max_price: None,
        allergens: vec![],
        date: None,
        mensa: MensaCode(191),
    }
}

fn meal(color: Color, tags: &[Tag], student: Option<u64>, allergens: &[&str]) -> Meal {
    Meal {
        name: "Essen".to_string(),
        color,
        tags: tags.to_vec(),
        price: student.map(|cents| Price {
            student: Cents(cents),
            employee: Cents(cents + 100),
            guest: Cents(cents + 200),
        }),
        allergens: allergens.iter().map(|allergen| allergen.to_string()).collect(),
    }
}

fn query(pairs: &[(&str, &str)]) -> Vec<(String, String)> {
    pairs.iter().map(|(key, value)| (key.to_string(), value.to_string())).collect()
}

#[test]
fn without_wishes_every_meal_matches() {
    let options = no_wishes();
    assert!(options.meal_matches(&meal(Color::Red, &[], None, &["9"])));
    assert!(options.meal_matches(&meal(Color::Green, &[Tag::Vegan], Some(100), &[])));
}

#[test]
fn vegan_meal_passes_a_wish_for_vegetarian() {
    let mut options = no_wishes();
    options.tags = vec![Tag::Vegetarian];
    assert!(options.meal_matches(&meal(Color::Green, &[Tag::Vegan], None, &[])));
    assert!(!options.meal_matches(&meal(Color::Green, &[Tag::Organic], None, &[])));
    assert!(options.meal_matches(&meal(Color::Green, &[Tag::Vegetarian], None, &[])));
    assert!(!options.meal_matches(&meal(Color::Green, &[], None, &[])));
    assert!(options.wants_tags(&vec![Tag::Organic, Tag::Vegan]));
}

#[test]
fn vegetarian_meal_does_not_pass_a_wish_for_vegan() {
    let mut options = no_wishes();
    options.tags = vec![Tag::Vegan];
    assert!(!options.meal_matches(&meal(Color::Green, &[Tag::Vegetarian], None, &[])));
    assert!(options.meal_matches(&meal(Color::Green, &[Tag::Vegan], None, &[])));
}

#[test]
fn one_wanted_tag_is_enough() {
    let mut options = no_wishes();
    options.tags = vec![Tag::Organic, Tag::ClimateFriendly];
    assert!(options.meal_matches(&meal(Color::Red, &[Tag::Vegan, Tag::ClimateFriendly], None, &[])));
    assert!(!options.meal_matches(&meal(Color::Red, &[Tag::Vegan, Tag::SustainableFishing], None, &[])));
}

#[test]
fn max_price_is_about_the_price_for_students() {
    let mut options = no_wishes();
    options.max_price = Some(Cents(350));
    assert!(options.meal_matches(&meal(Color::Red, &[], Some(350), &[])));
    assert!(options.meal_matches(&meal(Color::Red, &[], Some(0), &[])));
    assert!(!options.meal_matches(&meal(Color::Red, &[], Some(351), &[])));
    assert!(!options.meal_matches(&meal(Color::Red, &[], None, &[])));
}

#[test]
fn color_must_be_among_the_wanted() {
    let mut options = no_wishes();
    options.colors = vec![Color::Green, Color::Yellow];
    assert!(options.meal_matches(&meal(Color::Green, &[], None, &[])));
    assert!(options.meal_matches(&meal(Color::Yellow, &[], None, &[])));
    assert!(!options.meal_matches(&meal(Color::Red, &[], None, &[])));
    assert!(has_color(&options.colors, Color::Yellow));
    assert!(!has_color(&options.colors, Color::Red));
    assert!(has_tag(&vec![Tag::Vegan], Tag::Vegan));
    assert!(!has_tag(&vec![], Tag::Vegan));
}

#[test]
fn excluded_allergen_rules_a_meal_out() {
    let mut options = no_wishes();
    options.allergens = vec!["9".to_string(), "21a".to_string()];
    assert!(!options.meal_matches(&meal(Color::Green, &[], None, &["3", "21a"])));
    assert!(options.meal_matches(&meal(Color::Green, &[], None, &["3", "21"])));
    assert!(options.meal_matches(&meal(Color::Green, &[], None, &[])));
    assert!(options.tolerates(&vec!["90".to_string()]));
    assert!(!options.tolerates(&vec!["9".to_string()]));
}

#[test]
fn all_wishes_must_hold_together() {
    let options = MenuOptions {
        colors: vec![Color::Green],
        tags: vec![Tag::Vegetarian],
        max_price: Some(Cents(300)),
        allergens: vec!["9".to_string()],
        date: None,
        mensa: MensaCode(191),
    };
    assert!(options.meal_matches(&meal(Color::Green, &[Tag::Vegan], Some(250), &["3"])));
    assert!(!options.meal_matches(&meal(Color::Red, &[Tag::Vegan], Some(250), &["3"])));
    assert!(!options.meal_matches(&meal(Color::Green, &[Tag::Organic], Some(250), &["3"])));
    assert!(!options.meal_matches(&meal(Color::Green, &[Tag::Vegan], Some(301), &["3"])));
    assert!(!options.meal_matches(&meal(Color::Green, &[Tag::Vegan], Some(250), &["9"])));
}

#[test]
fn query_writes_options() {
    let pairs = query(&[
        ("color", "green"),
        ("mensa", "321"),
        ("tag", "vegan"),
        ("color", "blue"),
        ("max_price", "3.50"),
        ("allergen", "9"),
        ("tag", "climate friendly"),
        ("date", "2019-03-04"),
        ("color", "red"),
        ("allergen", "21a"),
        ("mensa", "1"),
        ("tag", "Vegan"),
    ]);
    assert_eq!(
        MenuOptions::from_query(&pairs),
        Ok(MenuOptions {
            colors: vec![Color::Green, Color::Red],
            tags: vec![Tag::Vegan, Tag::ClimateFriendly],
            max_price: Some(Cents(350)),
            allergens: vec!["9".to_string(), "21a".to_string()],
            date: NaiveDate::from_ymd_opt(2019, 3, 4),
            mensa: MensaCode(321),
        })
    );
}

#[test]
fn query_needs_a_facility() {
    assert_eq!(MenuOptions::from_query(&query(&[])), Err(()));
    assert_eq!(MenuOptions::from_query(&query(&[("color", "green")])), Err(()));
    assert_eq!(MenuOptions::from_query(&query(&[("mensa", "x")])), Err(()));
    assert_eq!(MenuOptions::from_query(&query(&[("mensa", "65536")])), Err(()));
    assert_eq!(MenuOptions::from_query(&query(&[("mensa", "x"), ("mensa", "1")])), Err(()));
    assert_eq!(MenuOptions::from_query(&query(&[("Mensa", "1")])), Err(()));
}

#[test]
fn query_with_a_facility_alone_has_no_wishes() {
    let mut expected = no_wishes();
    expected.mensa = MensaCode(65535);
    assert_eq!(MenuOptions::from_query(&query(&[("mensa", "65535")])), Ok(expected));
}

#[test]
fn values_that_cannot_be_read_are_passed_over() {
    let options = MenuOptions::from_query(&query(&[
        ("mensa", "1"),
        ("max_price", "3,50"),
        ("date", "04.03.2019"),
        ("color", ""),
        ("tag", "meat"),
    ]))
    .unwrap();
    assert_eq!(options, MenuOptions { mensa: MensaCode(1), ..no_wishes() });
}

#[test]
fn highest_price_is_a_decimal_amount() {
    let asked = |text: &str| MenuOptions::from_query(&query(&[("mensa", "191"), ("max_price", text)])).unwrap();
    assert_eq!(asked("3.50"), MenuOptions { max_price: Some(Cents(350)), mensa: MensaCode(191), ..no_wishes() });
    assert_eq!(asked("3.50").max_price, Some(Cents(350)));
    assert_eq!(asked("350").max_price, Some(Cents(35000)));
    assert_eq!(asked("3").max_price, Some(Cents(300)));
    assert_eq!(asked("0.29").max_price, Some(Cents(29)));
    assert_eq!(asked("2.999").max_price, Some(Cents(299)));
    assert_eq!(asked("0").max_price, Some(Cents(0)));
    assert_eq!(asked("").max_price, None);
    assert_eq!(asked("cheap").max_price, None);
    assert_eq!(asked("-1").max_price, None);
    assert_eq!(asked("3.5 ").max_price, None);
    assert_eq!(asked("184467440737095516.16").max_price, None);
    assert_eq!(asked("184467440737095516.15").max_price, Some(Cents(u64::MAX)));
}

#[test]
fn first_highest_price_counts() {
    let first = |pairs: &[(&str, &str)]| MenuOptions::from_query(&query(pairs)).unwrap().max_price;
    assert_eq!(first(&[("mensa", "1"), ("max_price", "x"), ("max_price", "1.00")]), None);
    assert_eq!(first(&[("max_price", "2.10"), ("mensa", "1"), ("max_price", "1.00")]), Some(Cents(210)));
    assert_eq!(first(&[("mensa", "1"), ("Max_price", "2.10")]), None);
}

#[test]
fn first_value_of_a_key_counts() {
    let pairs = query(&[("mensa", "x"), ("mensa", "100"), ("date", "2020-02-29"), ("date", "2021-01-01")]);
    assert_eq!(query_value("mensa", &pairs), Some("x".to_string()));
    assert_eq!(query_number("mensa", &pairs, u64::MAX), None);
    assert_eq!(query_number("mensa", &query(&[("mensa", "100"), ("mensa", "x")]), u64::MAX), Some(100));
    assert_eq!(query_values("date", &pairs), vec!["2020-02-29".to_string(), "2021-01-01".to_string()]);
    assert_eq!(query_value("tag", &pairs), None);
    assert_eq!(query_values("tag", &pairs), Vec::<String>::new());
    assert_eq!(query_number("date", &query(&[("date", "12")]), 12), Some(12));
    assert_eq!(query_number("date", &query(&[("date", "12")]), 11), None);
}

#[test]
fn names_spell_colors_and_tags() {
    let names: Vec<String> = ["red", "Red", "green", "", "yellow", "red"].iter().map(|n| n.to_string()).collect();
    assert_eq!(colors_named(&names), vec![Color::Red, Color::Green, Color::Yellow, Color::Red]);
    let names: Vec<String> = ["organic", "sustainable fishing", "sustainable_fishing", "vegetarian"]
        .iter()
        .map(|n| n.to_string())
        .collect();
    assert_eq!(tags_named(&names), vec![Tag::Organic, Tag::SustainableFishing, Tag::Vegetarian]);
}

#[test]
fn color_and_tag_are_spelled_both_ways() {
    for color in [Color::Green, Color::Yellow, Color::Red] {
        assert_eq!(Color::parse(color.name()), Ok(color));
        assert_eq!(color.name().parse::<Color>(), Ok(color));
    }
    for tag in [Tag::Vegetarian, Tag::Vegan, Tag::Organic, Tag::SustainableFishing, Tag::ClimateFriendly] {
        assert_eq!(Tag::parse(tag.name()), Ok(tag));
        assert_eq!(tag.name().parse::<Tag>(), Ok(tag));
    }
    assert_eq!(Color::Yellow.name(), "yellow");
    assert_eq!(Tag::SustainableFishing.name(), "sustainable fishing");
    assert_eq!(Tag::ClimateFriendly.name(), "climate friendly");
}

#[test]
fn unknown_spellings_are_explained() {
    assert_eq!(
        Color::parse("blau"),
        Err("Falsche Farbe: blau. Bitte nutze green, yellow oder red.".to_string())
    );
    assert_eq!(
        Tag::parse("meat"),
        Err("Wrong tag: meat. Please use vegan, vegetarian, organic, climate friendly or sustainable fishing.".to_string())
    );
}

#[test]
fn icons_stand_for_colors_and_tags() {
    assert_eq!(Color::from_img_src("/vendor/infomax/mensen/icons/ampel_gelb_70x65.png"), Some(Color::Yellow));
    assert_eq!(Color::from_img_src("/vendor/infomax/mensen/icons/ampel_gruen_70x65.png"), Some(Color::Green));
    assert_eq!(Color::from_img_src("/vendor/infomax/mensen/icons/ampel_rot_70x65.png"), Some(Color::Red));
    assert_eq!(Color::from_img_src("/vendor/infomax/mensen/icons/ampel_blau_70x65.png"), None);
    assert_eq!(Color::from_img_src(""), None);
    assert_eq!(Tag::from_img_src("/vendor/infomax/mensen/icons/1.png"), Some(Tag::Vegetarian));
    assert_eq!(Tag::from_img_src("/vendor/infomax/mensen/icons/15.png"), Some(Tag::Vegan));
    assert_eq!(Tag::from_img_src("/vendor/infomax/mensen/icons/18.png"), Some(Tag::Organic));
    assert_eq!(Tag::from_img_src("/vendor/infomax/mensen/icons/38.png"), Some(Tag::SustainableFishing));
    assert_eq!(Tag::from_img_src("/vendor/infomax/mensen/icons/43.png"), Some(Tag::ClimateFriendly));
    assert_eq!(Tag::from_img_src("/vendor/infomax/mensen/icons/2.png"), None);
    assert_eq!(Tag::from_img_src("15.png"), None);
}

#[test]
fn dates_are_read_as_year_month_day() {
    assert_eq!(parse_iso_date("2019-03-04").ok(), NaiveDate::from_ymd_opt(2019, 3, 4));
    assert_eq!(parse_iso_date("2020-02-29").ok(), NaiveDate::from_ymd_opt(2020, 2, 29));
    assert!(parse_iso_date("2019-02-29").is_err());
    assert!(parse_iso_date("04.03.2019").is_err());
    assert!(parse_iso_date("").is_err());
    assert!(parse_iso_date("2019-03-04 12:00").is_err());
}
