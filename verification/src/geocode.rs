//! Naming a place from what the geocoding service answers.
use vstd::prelude::*;
use crate::paths::string_opt_view;
use crate::text::{chars_of, push_str, same_text, string_from_chars};

verus! {

/// The stored preference that turns place-name lookup on.
pub const SETTING_GEOCODING: &'static str = "geocoding_enabled";

/// The parts of a geocoding answer's `address` that a label is made from; a
/// part the answer lacks, or gives as something other than text, is `None`.
pub struct PlaceAddress {
    pub city: Option<String>,
    pub town: Option<String>,
    pub village: Option<String>,
    pub municipality: Option<String>,
    pub county: Option<String>,
    pub country: Option<String>,
}

/// The most specific place the address names: a city, town, village or
/// municipality, in that order, else the county.
pub open spec fn place_of(a: PlaceAddress) -> Option<Seq<char>> {
    if a.city is Some {
        string_opt_view(a.city)
    } else if a.town is Some {
        string_opt_view(a.town)
    } else if a.village is Some {
        string_opt_view(a.village)
    } else if a.municipality is Some {
        string_opt_view(a.municipality)
    } else {
        string_opt_view(a.county)
    }
}

/// The label for an answer: `place, country`, or whichever of the two there is;
/// nothing for an answer without an address.
pub open spec fn label_of(address: Option<PlaceAddress>) -> Option<Seq<char>> {
    match address {
        None => None,
        Some(a) => match (place_of(a), string_opt_view(a.country)) {
            (Some(place), Some(country)) => Some(place + ", "@ + country),
            (Some(place), None) => Some(place),
            (None, country) => country,
        },
    }
}

/// The label names the most specific place the answer has, field by field: the
/// city; with no city, the town; with neither, the village; then the
/// municipality; then the county. When the answer also names a country it
/// follows after a comma; with no place, the country alone is the label.
pub proof fn lemma_label_names_the_most_specific_place(a: PlaceAddress)
    ensures
        forall|city: String| a.city == Some(city) ==> place_of(a) == Some(city@),
        forall|town: String| a.city is None && a.town == Some(town) ==> place_of(a) == Some(town@),
        forall|village: String|
            a.city is None && a.town is None && a.village == Some(village) ==> place_of(a) == Some(village@),
        forall|m: String|
            a.city is None && a.town is None && a.village is None && a.municipality == Some(m) ==> place_of(a)
                == Some(m@),
        a.city is None && a.town is None && a.village is None && a.municipality is None ==> place_of(a)
            == string_opt_view(a.county),
        forall|place: Seq<char>, country: String|
            place_of(a) == Some(place) && a.country == Some(country) ==> label_of(Some(a)) == Some(
                place + ", "@ + country@,
            ),
        place_of(a) is None ==> label_of(Some(a)) == string_opt_view(a.country),
        forall|place: Seq<char>| place_of(a) == Some(place) && a.country is None ==> label_of(Some(a)) == Some(place),
        label_of(None) is None,
{
}

fn first_of(a: &PlaceAddress) -> (r: Option<String>)
    ensures
        string_opt_view(r) == place_of(*a),
{
    match &a.city {
        Some(v) => return Some(v.clone()),
        None => {},
    }
    match &a.town {
        Some(v) => return Some(v.clone()),
        None => {},
    }
    match &a.village {
        Some(v) => return Some(v.clone()),
        None => {},
    }
    match &a.municipality {
        Some(v) => return Some(v.clone()),
        None => {},
    }
    match &a.county {
        Some(v) => Some(v.clone()),
        None => None,
    }
}

/// Picks the most useful label an answer offers: a city, town or village if
/// there is one, otherwise the county, with the country after it; otherwise the
/// country alone.
pub fn place_label(address: &Option<PlaceAddress>) -> (r: Option<String>)
    ensures
        string_opt_view(r) == label_of(*address),
{
    let a = match address {
        Some(a) => a,
        None => return None,
    };
    let place = first_of(a);
    match (place, &a.country) {
        (Some(place), Some(country)) => {
            let mut out = chars_of(place.as_str());
            push_str(&mut out, ", ");
            push_str(&mut out, country.as_str());
            Some(string_from_chars(&out))
        },
        (Some(place), None) => Some(place),
        (None, Some(country)) => Some(country.clone()),
        (None, None) => None,
    }
}

/// Whether the stored preference turns lookup on. Absent means off: this
/// feature never turns itself on.
pub fn geocoding_enabled(value: Option<&str>) -> (r: bool)
    ensures
        r == (match value {
            Some(v) => v@ == "1"@,
            None => false,
        }),
{
    match value {
        Some(v) => same_text(v, "1"),
        None => false,
    }
}

} // verus!
