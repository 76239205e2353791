use hive::geocode::{geocoding_enabled, place_label, PlaceAddress};

fn address() -> PlaceAddress {
    PlaceAddress { city: None, town: None, village: None, municipality: None, county: None, country: None }
}

fn label(address: Option<PlaceAddress>) -> Option<String> {
    place_label(&address)
}

#[test]
fn a_city_beats_a_county() {
    let body = PlaceAddress {
        city: Some("Paris".into()),
        county: Some("Île-de-France".into()),
        country: Some("France".into()),
        ..address()
    };
    assert_eq!(label(Some(body)).as_deref(), Some("Paris, France"));
}

#[test]
fn a_village_is_used_when_there_is_no_city() {
    let body = PlaceAddress { village: Some("Eguisheim".into()), country: Some("France".into()), ..address() };
    assert_eq!(label(Some(body)).as_deref(), Some("Eguisheim, France"));
}

#[test]
fn the_country_alone_is_better_than_nothing() {
    let body = PlaceAddress { country: Some("Iceland".into()), ..address() };
    assert_eq!(label(Some(body)).as_deref(), Some("Iceland"));
}

#[test]
fn an_empty_answer_names_nothing() {
    assert!(label(Some(address())).is_none());
    assert!(label(None).is_none());
}

#[test]
fn a_place_without_a_country_stands_alone() {
    let body = PlaceAddress { county: Some("Kent".into()), ..address() };
    assert_eq!(label(Some(body)).as_deref(), Some("Kent"));
}

#[test]
fn lookup_is_off_unless_switched_on() {
    assert!(!geocoding_enabled(None));
    assert!(!geocoding_enabled(Some("0")));
    assert!(geocoding_enabled(Some("1")));
}
