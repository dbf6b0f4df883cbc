//! Support for the clothing-suggestion collaborator.
//!
//! The collaborator is a chat-completion service: the boundary sends it a
//! prompt built from the weather narrative and hands back the first
//! choice's content, if any.  Building the prompt and turning the reply
//! into mail-ready HTML live here; the HTTP exchange does not.

use vstd::prelude::*;

use crate::errors::WeatherError;

verus! {

/// The HTML that the markdown renderer produces for a markdown text; it
/// depends on the text alone.
pub uninterp spec fn html_of_markdown(md: Seq<char>) -> Seq<char>;

/// Relies on pulldown_cmark's `Parser::new_ext` and `html::push_html`:
/// with fixed options (strikethrough enabled) the produced HTML is a
/// function of the markdown text alone.
#[verifier::external_body]
pub fn markdown2html(md_content: &str) -> (r: String)
    ensures
        r@ == html_of_markdown(md_content@),
{
    let mut options = pulldown_cmark::Options::empty();
    options.insert(pulldown_cmark::Options::ENABLE_STRIKETHROUGH);
    let parser = pulldown_cmark::Parser::new_ext(md_content, options);
    let mut html_output = String::new();
    pulldown_cmark::html::push_html(&mut html_output, parser);
    html_output
}

/// The prompt sent to the suggestion service for a weather narrative.
pub open spec fn suggestion_prompt_spec(desc: Seq<char>) -> Seq<char> {
    "Given the following detailed weather data, give professional clothing advice:\n\n"@ + desc
        + "\n\nConsider temperature, humidity, wind and precipitation, and cover: tops, bottoms, outerwear, accessories (rain gear, hat, scarf), and special cautions (sun, warmth, rain). Keep it practical and under 100 words."@
}

/// Build the suggestion prompt around the narrative text.
pub fn build_suggestion_prompt(weather_desc: &str) -> (r: String)
    ensures
        r@ == suggestion_prompt_spec(weather_desc@),
{
    let mut s = String::from_str(
        "Given the following detailed weather data, give professional clothing advice:\n\n",
    );
    s.append(weather_desc);
    s.append(
        "\n\nConsider temperature, humidity, wind and precipitation, and cover: tops, bottoms, outerwear, accessories (rain gear, hat, scarf), and special cautions (sun, warmth, rain). Keep it practical and under 100 words.",
    );
    proof {
        assert(s@ =~= suggestion_prompt_spec(weather_desc@));
    }
    s
}

/// Turn the service's first reply, if any, into mail-ready HTML.  An
/// absent reply (no choices) is fatal.
pub fn suggestion_from_reply(content: Option<&str>) -> (r: Result<String, WeatherError>)
    ensures
        r is Ok <==> content is Some,
        content matches Some(c) ==> r matches Ok(s) && s@ == html_of_markdown(c@),
        r is Err ==> r->Err_0 == WeatherError::EmptyInput,
{
    match content {
        Some(c) => Ok(markdown2html(c)),
        None => Err(WeatherError::EmptyInput),
    }
}

} // verus!
