use menstruation::codes::filter_response;
use menstruation::utility::partition;
use menstruation::{heading_text, keep_items, Group, MensaCode, Response};

fn group(name: &str, items: &[u32]) -> Group<u32> {
    Group { name: name.to_string(), items: items.to_vec() }
}

fn sample() -> Response<u32> {
    Response(vec![
        group("odd", &[1, 3, 5]),
        group("mixed", &[6, 1, 2, 9, 4]),
        group("none", &[]),
        group("even", &[2, 4]),
        group("again", &[8, 7, 8]),
    ])
}

fn even(n: &u32) -> bool {
    n % 2 == 0
}

#[test]
fn filter_keeps_what_the_predicate_accepts() {
    let kept = sample().filter(even);
    assert_eq!(
        kept,
        Response(vec![group("mixed", &[6, 2, 4]), group("even", &[2, 4]), group("again", &[8, 8])])
    );
}

#[test]
fn filter_twice_is_filter_once() {
    let once = sample().filter(even);
    let twice = sample().filter(even).filter(even);
    assert_eq!(once, twice);
    let big = |n: &u32| *n > 4;
    assert_eq!(sample().filter(big).filter(big), sample().filter(big));
}

#[test]
fn filter_leaves_no_group_empty() {
    for limit in 0..11u32 {
        let kept = sample().filter(|n| *n >= limit);
        for group in &kept.0 {
            assert!(!group.items.is_empty());
        }
    }
    assert_eq!(sample().filter(|_| false), Response(vec![]));
    assert_eq!(Response::<u32>(vec![]).filter(|_| true), Response(vec![]));
}

#[test]
fn filter_drops_groups_that_were_empty() {
    let kept = sample().filter(|_| true);
    assert_eq!(kept.0.len(), 4);
    assert_eq!(kept.0[2].name, "even");
}

#[test]
fn filter_keeps_the_order_of_groups_and_items() {
    let kept = sample().filter(|n| *n != 1);
    let names: Vec<&str> = kept.0.iter().map(|group| group.name.as_str()).collect();
    assert_eq!(names, vec!["odd", "mixed", "even", "again"]);
    assert_eq!(kept.0[0].items, vec![3, 5]);
    assert_eq!(kept.0[1].items, vec![6, 2, 9, 4]);
    assert_eq!(kept.0[3].items, vec![8, 7, 8]);
}

#[test]
fn filter_response_is_filter() {
    assert_eq!(filter_response(even, sample()), sample().filter(even));
    assert_eq!(filter_response(|n: &u32| *n == 7, sample()), Response(vec![group("again", &[7])]));
}

#[test]
fn filter_works_on_items_that_cannot_be_copied() {
    let words = Response(vec![Group {
        name: "words".to_string(),
        items: vec!["a".to_string(), "bb".to_string(), "c".to_string()],
    }]);
    let kept = words.filter(|word| word.len() == 1);
    assert_eq!(kept.0[0].items, vec!["a".to_string(), "c".to_string()]);
}

#[test]
fn keep_items_filters_one_list() {
    assert_eq!(keep_items(vec![1u32, 2, 3, 4], &even), vec![2, 4]);
    assert_eq!(keep_items(Vec::<u32>::new(), &even), Vec::<u32>::new());
}

#[test]
fn partition_splits_in_order() {
    let numbers = [5u32, 2, 8, 1, 4];
    let (yes, no) = partition(even, &numbers);
    assert_eq!(yes, vec![&2, &8, &4]);
    assert_eq!(no, vec![&5, &1]);
    let (all, none) = partition(|_: &u32| true, &numbers);
    assert_eq!(all.len(), 5);
    assert!(none.is_empty());
    let empty: [u32; 0] = [];
    let (yes, no) = partition(even, &empty);
    assert!(yes.is_empty() && no.is_empty());
}

#[test]
fn mensa_code_is_made_of_a_number() {
    assert_eq!(MensaCode::from(191), MensaCode(191));
    assert_eq!("321".parse::<MensaCode>(), Ok(MensaCode(321)));
    assert!("65536".parse::<MensaCode>().is_err());
    assert!("".parse::<MensaCode>().is_err());
}

#[test]
fn heading_must_not_be_empty() {
    assert_eq!(heading_text(Some("Salate".to_string())), Some("Salate".to_string()));
    assert_eq!(heading_text(Some(" ".to_string())), Some(" ".to_string()));
    assert_eq!(heading_text(Some(String::new())), None);
    assert_eq!(heading_text(None), None);
}

#[test]
fn filtering_keeps_the_names_of_the_groups() {
    let response = Response(vec![
        Group { name: "a".to_string(), items: vec![1u32, 2] },
        Group { name: "b".to_string(), items: vec![3u32] },
        Group { name: "c".to_string(), items: vec![4u32] },
    ]);
    let kept = response.filter(even);
    let names: Vec<&str> = kept.0.iter().map(|group| group.name.as_str()).collect();
    assert_eq!(names, vec!["a", "c"]);
}
