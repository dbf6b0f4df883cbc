//! City lookup for the forecast provider.
//!
//! The provider addresses cities by numeric location identifiers; the
//! fetch boundary resolves a city name through this table before it makes
//! its request.

use vstd::prelude::*;

verus! {

/// The provider's location identifier for a known city name.
pub open spec fn location_id_of(name: Seq<char>) -> Option<Seq<char>> {
    if name == "邗江"@ {
        Some("101190606"@)
    } else if name == "成都"@ {
        Some("101270101"@)
    } else if name == "北京"@ {
        Some("101010100"@)
    } else {
        None
    }
}

/// Resolve a city name to its location identifier.
pub fn query_city_location_id(city_name: &str) -> (r: Option<&'static str>)
    ensures
        match r {
            Some(id) => location_id_of(city_name@) == Some(id@),
            None => location_id_of(city_name@) is None,
        },
{
    let name = city_name.to_owned();
    if name.eq(&String::from_str("邗江")) {
        Some("101190606")
    } else if name.eq(&String::from_str("成都")) {
        Some("101270101")
    } else if name.eq(&String::from_str("北京")) {
        Some("101010100")
    } else {
        None
    }
}

} // verus!
