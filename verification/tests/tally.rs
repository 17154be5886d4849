use relay_map::relay::Relay;
use relay_map::tally::country_counts;

fn in_country(code: &str) -> Relay {
    Relay { flags: vec![], latitude: None, longitude: None, country: Some(code.to_string()) }
}

fn stateless() -> Relay {
    Relay { flags: vec![], latitude: None, longitude: None, country: None }
}

fn census(codes: &[&str]) -> Vec<Relay> {
    codes.iter().map(|c| in_country(c)).collect()
}

fn named(entries: &[(&str, usize)]) -> Vec<(String, usize)> {
    entries.iter().map(|(c, n)| (c.to_string(), *n)).collect()
}

#[test]
fn spellings_that_differ_in_case_share_a_bucket() {
    assert_eq!(country_counts(&census(&["us", "US", "de"])), named(&[("US", 2), ("DE", 1)]));
}

#[test]
fn equal_counts_are_ranked_by_code() {
    assert_eq!(country_counts(&census(&["US", "DE"])), named(&[("DE", 1), ("US", 1)]));
    assert_eq!(country_counts(&census(&["DE", "US"])), named(&[("DE", 1), ("US", 1)]));
}

#[test]
fn an_empty_census_has_an_empty_ranking() {
    assert_eq!(country_counts(&vec![]), named(&[]));
    assert_eq!(country_counts(&vec![stateless(), stateless()]), named(&[]));
}

#[test]
fn relays_without_a_country_are_left_out() {
    let relays = vec![stateless(), in_country("fr"), stateless(), in_country("FR"), stateless()];
    assert_eq!(country_counts(&relays), named(&[("FR", 2)]));
}

#[test]
fn the_larger_count_comes_first() {
    let relays = census(&["nl", "de", "us", "de", "us", "us", "fr", "NL", "Fr", "fR", "US"]);
    assert_eq!(
        country_counts(&relays),
        named(&[("US", 4), ("FR", 3), ("DE", 2), ("NL", 2)])
    );
}

#[test]
fn the_order_of_the_census_does_not_matter() {
    let forward = census(&["a", "b", "c", "b", "d", "c", "c"]);
    let mut backward = census(&["a", "b", "c", "b", "d", "c", "c"]);
    backward.reverse();
    let expected = named(&[("C", 3), ("B", 2), ("A", 1), ("D", 1)]);
    assert_eq!(country_counts(&forward), expected);
    assert_eq!(country_counts(&backward), expected);
}

#[test]
fn a_code_ranks_before_its_extensions() {
    assert_eq!(
        country_counts(&census(&["usa", "us", "u", ""])),
        named(&[("", 1), ("U", 1), ("US", 1), ("USA", 1)])
    );
}

#[test]
fn more_than_ten_countries_are_all_ranked() {
    let codes = ["l", "k", "j", "i", "h", "g", "f", "e", "d", "c", "b", "a", "a"];
    let ranking = country_counts(&census(&codes));
    assert_eq!(ranking.len(), 12);
    assert_eq!(ranking[0], ("A".to_string(), 2));
    assert_eq!(ranking[1], ("B".to_string(), 1));
    assert_eq!(ranking[11], ("L".to_string(), 1));
}

#[test]
fn codes_outside_ascii_are_upper_cased_too() {
    // The sharp s has a two-letter upper-case form.
    assert_eq!(
        country_counts(&census(&["\u{df}", "ss", "SS", "\u{e9}", "\u{c9}"])),
        named(&[("SS", 3), ("\u{c9}", 2)])
    );
}

#[test]
fn every_count_is_the_number_of_relays_of_its_code() {
    let codes = ["us", "de", "US", "fr", "De", "us", "xx"];
    let ranking = country_counts(&census(&codes));
    let total: usize = ranking.iter().map(|(_, n)| *n).sum();
    assert_eq!(total, codes.len());
    for (code, count) in &ranking {
        let expected = codes.iter().filter(|c| c.to_uppercase() == *code).count();
        assert_eq!(*count, expected, "{code}");
        assert!(*count > 0);
    }
    for pair in ranking.windows(2) {
        assert!(pair[0].1 > pair[1].1 || (pair[0].1 == pair[1].1 && pair[0].0 < pair[1].0));
    }
}

#[test]
fn codes_are_ranked_as_they_stand() {
    let codes = vec![
        Some("us".to_string()),
        None,
        Some("US".to_string()),
        Some("us".to_string()),
        Some("DE".to_string()),
        None,
    ];
    assert_eq!(
        relay_map::tally::rank_codes(&codes),
        named(&[("us", 2), ("DE", 1), ("US", 1)])
    );
    assert_eq!(relay_map::tally::rank_codes(&vec![]), named(&[]));
    assert_eq!(relay_map::tally::rank_codes(&vec![None, None]), named(&[]));
}

#[test]
fn the_bucket_of_a_relay_is_its_code_in_upper_case() {
    let relays = vec![in_country("us"), stateless(), in_country("De"), in_country("FR")];
    assert_eq!(
        relay_map::tally::country_codes(&relays),
        vec![Some("US".to_string()), None, Some("DE".to_string()), Some("FR".to_string())]
    );
    assert_eq!(relay_map::tally::country_codes(&vec![]), Vec::<Option<String>>::new());
}
