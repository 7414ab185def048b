use menstruation::codes::{get, CardParts, Mensa, MensaParts};
use menstruation::error::{Error, NumberError};
use menstruation::{Group, MensaCode, Response};
use scraper::{Html, Selector};

fn row_html(handler: &str, name: &str, lines: &[&str]) -> String {
    format!(
        "<div class=\"row row-top-percent-1 ptr\" onclick=\"{}\"><div class=\"addrcard\">\
         <a class=\"dummy\"><div>{}</div></a>ignored{}</div></div>",
        handler,
        name,
        lines.iter().map(|line| format!("<br>{}", line)).collect::<String>()
    )
}

fn group_html(heading: &str, rows: &[String]) -> String {
    format!("<div class=\"container-fluid\"><h4>{}</h4>{}</div>", heading, rows.concat())
}

fn page_html(groups: &[String]) -> String {
    format!("<html><body><div id=\"itemsHochschulen\">{}</div></body></html>", groups.concat())
}

fn sample_page() -> String {
    page_html(&[
        group_html(
            " Technische Universität Berlin ",
            &[
                row_html("xhrLoad('321')", "Mensa TU Hardenbergstraße", &[" Hardenbergstraße 34 ", "10623 Berlin"]),
                row_html("xhrLoad('657')", "Cafeteria TU Skyline", &["Ernst-Reuter-Platz 7"]),
            ],
        ),
        group_html("Freie Universität Berlin", &[row_html("xhrLoad('322')", "Mensa FU II", &["Otto-von-Simson-Str. 26", "14195 Berlin"])]),
    ])
}

fn mensa(code: u16, name: &str, address: &str) -> Mensa {
    Mensa { code: MensaCode(code), name: name.to_string(), address: address.to_string() }
}

fn sample_codes() -> Response<Mensa> {
    Response(vec![
        Group {
            name: "Technische Universität Berlin".to_string(),
            items: vec![
                mensa(321, "Mensa TU Hardenbergstraße", "Hardenbergstraße 34, 10623 Berlin"),
                mensa(657, "Cafeteria TU Skyline", "Ernst-Reuter-Platz 7"),
            ],
        },
        Group {
            name: "Freie Universität Berlin".to_string(),
            items: vec![mensa(322, "Mensa FU II", "Otto-von-Simson-Str. 26, 14195 Berlin")],
        },
    ])
}

fn groups_of(text: &str) -> Option<Vec<Option<String>>> {
    Some(vec![Some(format!("xhrLoad('{}')", text)), Some(text.to_string())])
}

fn error_of(field: &str) -> Error {
    Error::Parse { field: field.to_string(), cause: None }
}

#[test]
fn facilities_are_read_in_page_order() {
    let page = Html::parse_document(&sample_page());
    assert_eq!(Response::<Mensa>::try_from(page), Ok(sample_codes()));
}

#[test]
fn facility_row_is_read_directly() {
    let html = row_html("load(); xhrLoad('42'); more()", "Kiosk", &["Weg 1"]);
    let page = Html::parse_fragment(&html);
    let rule = Selector::parse(".row").unwrap();
    let row = page.select(&rule).next().unwrap();
    assert_eq!(Mensa::try_from(row), Ok(mensa(42, "Kiosk", "Weg 1")));
    let parts = Mensa::read(row).unwrap();
    assert_eq!(
        parts,
        MensaParts {
            call: Some(vec![Some("xhrLoad('42')".to_string()), Some("42".to_string())]),
            card: Some(CardParts {
                name: Some("Kiosk".to_string()),
                texts: vec!["Kiosk".to_string(), "ignored".to_string(), "Weg 1".to_string()],
            }),
        }
    );
}

#[test]
fn facility_group_is_read_directly() {
    let html = group_html("  FU  ", &[row_html("xhrLoad('1')", "A", &[])]);
    let page = Html::parse_fragment(&html);
    let rule = Selector::parse(".container-fluid").unwrap();
    let element = page.select(&rule).next().unwrap();
    assert_eq!(
        Group::<Mensa>::try_from(element),
        Ok(Group { name: "FU".to_string(), items: vec![mensa(1, "A", "")] })
    );
}

#[test]
fn facility_without_code_fails() {
    let rows = [
        row_html("", "A", &[]),
        row_html("xhrLoad(321)", "A", &[]),
        row_html("xhrLoad('')", "A", &[]),
        row_html("xhrload('1')", "A", &[]),
    ];
    for row in rows {
        let page = Html::parse_document(&page_html(&[group_html("TU", &[row])]));
        assert_eq!(Response::<Mensa>::try_from(page), Err(error_of("Mensa::code")));
    }
}

#[test]
fn facility_code_must_fit() {
    let page = Html::parse_document(&page_html(&[group_html(
        "TU",
        &[row_html("xhrLoad('65536')", "A", &[])],
    )]));
    assert_eq!(
        Response::<Mensa>::try_from(page),
        Err(Error::Parse {
            field: "Mensa::code".to_string(),
            cause: Some(Box::new(Error::Number(NumberError::Overflow))),
        })
    );
}

#[test]
fn facility_group_without_heading_fails() {
    let page = Html::parse_document(&page_html(&[format!(
        "<div class=\"container-fluid\">{}</div>",
        row_html("xhrLoad('1')", "A", &[])
    )]));
    assert_eq!(Response::<Mensa>::try_from(page), Err(error_of("Group<Mensa>::name")));
}

#[test]
fn facility_group_with_an_empty_heading_fails() {
    let rows = [row_html("xhrLoad('1')", "A", &[])];
    let page = Html::parse_document(&page_html(&[group_html("", &rows)]));
    assert_eq!(Response::<Mensa>::try_from(page), Err(error_of("Group<Mensa>::name")));
    let page = Html::parse_document(&page_html(&[group_html(" \n\t ", &rows)]));
    assert_eq!(Response::<Mensa>::try_from(page), Err(error_of("Group<Mensa>::name")));
    let page = Html::parse_document(&page_html(&[group_html(" x ", &rows)]));
    assert_eq!(Response::<Mensa>::try_from(page).unwrap().0[0].name, "x");
}

#[test]
fn facility_group_without_rows_is_left_out() {
    let page = Html::parse_document(&page_html(&[
        group_html("Leer", &[]),
        group_html("TU", &[row_html("xhrLoad('1')", "A", &[])]),
    ]));
    let codes = Response::<Mensa>::try_from(page).unwrap();
    assert_eq!(codes.0.len(), 1);
    assert_eq!(codes.0[0].name, "TU");
}

#[test]
fn page_without_facilities_is_empty() {
    let page = Html::parse_document("<html><body><p>nothing</p></body></html>");
    assert_eq!(Response::<Mensa>::try_from(page), Ok(Response(vec![])));
}

#[test]
fn parts_make_a_facility() {
    let parts = MensaParts {
        call: groups_of("191"),
        card: Some(CardParts {
            name: Some("Mensa".to_string()),
            texts: vec![
                "Mensa".to_string(),
                "x".to_string(),
                " Straße 1 ".to_string(),
                "\n12345 Berlin".to_string(),
            ],
        }),
    };
    assert_eq!(Mensa::from_parts(&parts), Ok(mensa(191, "Mensa", "Straße 1, 12345 Berlin")));
}

#[test]
fn facility_parts_fail_in_the_order_of_the_fields() {
    let mut parts = MensaParts { call: None, card: None };
    assert_eq!(Mensa::from_parts(&parts), Err(error_of("Mensa::code")));
    parts.call = Some(vec![Some("xhrLoad".to_string())]);
    assert_eq!(Mensa::from_parts(&parts), Err(error_of("Mensa::code")));
    parts.call = Some(vec![Some("xhrLoad".to_string()), None]);
    assert_eq!(Mensa::from_parts(&parts), Err(error_of("Mensa::code")));
    parts.call = groups_of("١٢");
    assert_eq!(
        Mensa::from_parts(&parts),
        Err(Error::Parse {
            field: "Mensa::code".to_string(),
            cause: Some(Box::new(Error::Number(NumberError::InvalidDigit))),
        })
    );
    parts.call = groups_of("7");
    assert_eq!(Mensa::from_parts(&parts), Err(error_of("Mensa::address")));
    parts.card = Some(CardParts { name: None, texts: vec![] });
    assert_eq!(Mensa::from_parts(&parts), Err(error_of("Mensa::name")));
    parts.card = Some(CardParts { name: Some("A".to_string()), texts: vec!["A".to_string()] });
    assert_eq!(Mensa::from_parts(&parts), Ok(mensa(7, "A", "")));
}

#[test]
fn code_is_taken_from_the_call() {
    assert_eq!(MensaCode::from_call(&groups_of("65535")), Ok(MensaCode(65535)));
    assert_eq!(MensaCode::from_call(&None), Err(error_of("Mensa::code")));
    assert_eq!(MensaCode::parse("12"), Ok(MensaCode(12)));
    assert_eq!(MensaCode::parse("x"), Err(NumberError::InvalidDigit));
}

#[test]
fn without_a_pattern_all_facilities_are_found() {
    assert_eq!(get(None, sample_codes()), sample_codes());
}

#[test]
fn pattern_is_sought_in_name_and_address() {
    let found = get(Some("skyline".to_string()), sample_codes());
    assert_eq!(found.0.len(), 1);
    assert_eq!(found.0[0].name, "Technische Universität Berlin");
    assert_eq!(found.0[0].items, vec![mensa(657, "Cafeteria TU Skyline", "Ernst-Reuter-Platz 7")]);
    let found = get(Some("14195".to_string()), sample_codes());
    assert_eq!(found.0.len(), 1);
    assert_eq!(found.0[0].items[0].code, MensaCode(322));
}

#[test]
fn pattern_ignores_case() {
    let found = get(Some("MENSA".to_string()), sample_codes());
    assert_eq!(found.0.len(), 2);
    assert_eq!(found.0[0].items.len(), 1);
    assert_eq!(found.0[0].items[0].code, MensaCode(321));
    assert_eq!(found.0[1].items[0].code, MensaCode(322));
    let found = get(Some("hardenbergSTRASSE".to_string()), sample_codes());
    assert_eq!(found, Response(vec![]));
    let found = get(Some("HARDENBERGSTRAßE".to_string()), sample_codes());
    assert_eq!(found.0[0].items.len(), 1);
}

#[test]
fn pattern_that_nothing_holds_finds_nothing() {
    assert_eq!(get(Some("Hamburg".to_string()), sample_codes()), Response(vec![]));
}

#[test]
fn empty_pattern_finds_everything() {
    assert_eq!(get(Some(String::new()), sample_codes()), sample_codes());
}
