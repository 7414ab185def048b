use menstruation::allergens::{get, Allergen};
use menstruation::error::{Error, NumberError};
use menstruation::Group;
use scraper::Html;

fn entry(number: u8, index: Option<char>, name: &str) -> Allergen {
    Allergen { name: name.to_string(), number, index }
}

fn groups(number: &str, index: &str, name: &str) -> Vec<Option<String>> {
    vec![
        Some(format!("{}{} - {}", number, index, name)),
        Some(number.to_string()),
        Some(index.to_string()),
        Some(name.to_string()),
        name.chars().last().map(|last| last.to_string()),
    ]
}

fn page_html(items: &[&str]) -> String {
    format!(
        "<html><body><div class=\"col-sm-6\"><ul>{}</ul></div></body></html>",
        items.iter().map(|item| format!("<li>{}</li>", item)).collect::<String>()
    )
}

fn error_of(field: &str) -> Error {
    Error::Parse { field: field.to_string(), cause: None }
}

#[test]
fn entry_with_letter_is_read() {
    assert_eq!(Allergen::parse_all("9a - Gluten"), Ok(vec![entry(9, Some('a'), "Gluten")]));
}

#[test]
fn entry_without_letter_is_read() {
    assert_eq!(
        Allergen::parse_all("2 - Schweinefleisch bzw. mit Gelatine (Schwein)"),
        Ok(vec![entry(2, None, "Schweinefleisch bzw. mit Gelatine (Schwein)")])
    );
}

#[test]
fn text_may_hold_several_entries_or_none() {
    assert_eq!(
        Allergen::parse_all("21 - Ei, 13 - Nuss; 1b - Roggen"),
        Ok(vec![entry(21, None, "Ei"), entry(13, None, "Nuss"), entry(1, Some('b'), "Roggen")])
    );
    assert_eq!(Allergen::parse_all("keine Angaben"), Ok(vec![]));
    assert_eq!(Allergen::parse_all(""), Ok(vec![]));
}

#[test]
fn number_of_an_entry_must_fit() {
    assert_eq!(Allergen::parse_all("255 - x"), Ok(vec![entry(255, None, "x")]));
    assert_eq!(
        Allergen::parse_all("1 - a, 256 - x"),
        Err(Error::Parse {
            field: "Allergen".to_string(),
            cause: Some(Box::new(Error::Number(NumberError::Overflow))),
        })
    );
}

#[test]
fn groups_make_an_entry() {
    assert_eq!(Allergen::from_groups(&groups("9", "a", "Gluten")), Ok(entry(9, Some('a'), "Gluten")));
    assert_eq!(Allergen::from_groups(&groups("30", "", "Sesam")), Ok(entry(30, None, "Sesam")));
    assert_eq!(
        Allergen::from_groups(&vec![None, Some("7".to_string()), None, Some("x".to_string())]),
        Ok(entry(7, None, "x"))
    );
}

#[test]
fn groups_that_lack_a_part_fail() {
    assert_eq!(Allergen::from_groups(&vec![]), Err(error_of("Allergen")));
    assert_eq!(Allergen::from_groups(&vec![Some("x".to_string()), None]), Err(error_of("Allergen")));
    assert_eq!(
        Allergen::from_groups(&vec![None, Some("7".to_string()), Some("a".to_string())]),
        Err(error_of("Allergen"))
    );
    assert_eq!(
        Allergen::from_groups(&vec![None, Some("7".to_string()), Some("a".to_string()), None]),
        Err(error_of("Allergen"))
    );
    assert_eq!(
        Allergen::from_groups(&groups("x", "", "y")),
        Err(Error::Parse {
            field: "Allergen".to_string(),
            cause: Some(Box::new(Error::Number(NumberError::InvalidDigit))),
        })
    );
}

#[test]
fn registry_is_sorted_by_number() {
    let page = page_html(&["21 - Ei", "9a - Gluten", "2 - Schwein", "13 - Nuss"]);
    assert_eq!(
        get(&page),
        Ok(vec![
            entry(2, None, "Schwein"),
            entry(9, Some('a'), "Gluten"),
            entry(13, None, "Nuss"),
            entry(21, None, "Ei"),
        ])
    );
}

#[test]
fn entries_of_one_number_keep_their_order() {
    let page = page_html(&["9b - Roggen", "3 - x", "9a - Weizen, 9 - Gluten", "1 - y"]);
    assert_eq!(
        get(&page),
        Ok(vec![
            entry(1, None, "y"),
            entry(3, None, "x"),
            entry(9, Some('b'), "Roggen"),
            entry(9, Some('a'), "Weizen"),
            entry(9, None, "Gluten"),
        ])
    );
}

#[test]
fn sort_orders_any_entries() {
    let given = vec![entry(5, None, "e"), entry(1, None, "a"), entry(5, Some('x'), "f"), entry(0, None, "z")];
    assert_eq!(
        Allergen::sort(given),
        vec![entry(0, None, "z"), entry(1, None, "a"), entry(5, None, "e"), entry(5, Some('x'), "f")]
    );
    assert_eq!(Allergen::sort(vec![]), vec![]);
}

#[test]
fn place_puts_an_entry_behind_its_equals() {
    let mut entries = vec![entry(1, None, "a"), entry(3, None, "b"), entry(3, None, "c"), entry(7, None, "d")];
    Allergen::place(&mut entries, entry(3, None, "new"));
    assert_eq!(entries[3], entry(3, None, "new"));
    Allergen::place(&mut entries, entry(0, None, "first"));
    assert_eq!(entries[0], entry(0, None, "first"));
    Allergen::place(&mut entries, entry(9, None, "last"));
    assert_eq!(entries[6], entry(9, None, "last"));
}

#[test]
fn page_without_list_has_no_entries() {
    assert_eq!(get("<html><body><ul><li>9a - Gluten</li></ul></body></html>"), Ok(vec![]));
    assert_eq!(get(""), Ok(vec![]));
}

#[test]
fn registry_failure_names_the_group() {
    let page = page_html(&["1 - a", "999 - b"]);
    assert_eq!(
        get(&page),
        Err(Error::Parse {
            field: "Group<Allergen>".to_string(),
            cause: Some(Box::new(Error::Parse {
                field: "Allergen".to_string(),
                cause: Some(Box::new(Error::Number(NumberError::Overflow))),
            })),
        })
    );
}

#[test]
fn registry_is_read_from_a_parsed_page() {
    let page = Html::parse_document(&page_html(&["4 - d", "3 - c"]));
    assert_eq!(Allergen::registry(page), Ok(vec![entry(3, None, "c"), entry(4, None, "d")]));
}

#[test]
fn registry_is_one_group_sorted_by_number() {
    let page = Html::parse_document(&page_html(&["21 - Milch", "9a - Gluten", "3 - Eier"]));
    let group = Group::<Allergen>::try_from(page).unwrap();
    assert_eq!(group.name, "allergens");
    assert_eq!(
        group.items,
        vec![entry(3, None, "Eier"), entry(9, Some('a'), "Gluten"), entry(21, None, "Milch")]
    );
    let numbers: Vec<u8> = group.items.iter().map(|held| held.number).collect();
    assert_eq!(numbers, vec![3, 9, 21]);
}

#[test]
fn registry_group_fails_as_its_entries_do() {
    let page = Html::parse_document(&page_html(&["1 - a", "999 - b"]));
    assert_eq!(
        Group::<Allergen>::try_from(page),
        Err(Error::Parse {
            field: "Allergen".to_string(),
            cause: Some(Box::new(Error::Number(NumberError::Overflow))),
        })
    );
    let empty = Html::parse_document("");
    assert_eq!(
        Group::<Allergen>::try_from(empty),
        Ok(Group { name: "allergens".to_string(), items: vec![] })
    );
}

#[test]
fn registry_ascends_whatever_the_order_of_the_page() {
    let orders: [[&str; 4]; 4] = [
        ["1 - a", "2 - b", "3 - c", "4 - d"],
        ["4 - d", "3 - c", "2 - b", "1 - a"],
        ["3 - c", "1 - a", "4 - d", "2 - b"],
        ["2 - b", "4 - d", "1 - a", "3 - c"],
    ];
    for order in orders.iter() {
        let found = get(&page_html(order)).unwrap();
        assert_eq!(
            found,
            vec![entry(1, None, "a"), entry(2, None, "b"), entry(3, None, "c"), entry(4, None, "d")]
        );
    }
}
