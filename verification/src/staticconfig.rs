//! Explicitly constructed configuration for the mail and API boundaries.
//!
//! The values come from the process environment, read by the boundary
//! code; the constructors here only validate and assemble them, so they
//! can be checked and tested without touching the environment.

use vstd::prelude::*;

use crate::errors::WeatherError;
use crate::fixed::{all_digits, digits_val};

verus! {

/// Mail transport settings.
#[derive(Debug)]
pub struct SmtpConfig {
    pub server: String,
    pub port: u16,
    pub username: String,
    pub password: String,
    pub from: String,
}

/// Keys for the weather and suggestion providers.
#[derive(Debug)]
pub struct ApiConfig {
    pub qweather: String,
    pub deepseek: String,
}

/// Grammar of a port number: one to five decimal digits naming a value
/// that fits sixteen bits.
pub open spec fn parse_port_spec(s: Seq<char>) -> Option<int> {
    if 1 <= s.len() <= 5 && all_digits(s) && digits_val(s) <= 65535 {
        Some(digits_val(s))
    } else {
        None
    }
}

/// Decode a port number.
pub fn parse_port(s: &str) -> (r: Option<u16>)
    ensures
        r is Some <==> parse_port_spec(s@) is Some,
        r is Some ==> Some(r->0 as int) == parse_port_spec(s@),
{
    let len = s.unicode_len();
    if len < 1 || len > 5 {
        return None;
    }
    if !crate::fixed::check_digits(s, 0, len) {
        return None;
    }
    proof {
        assert(s@.subrange(0, len as int) =~= s@);
    }
    let v = crate::fixed::digits_value(s, 0, len);
    if v > 65535 {
        return None;
    }
    Some(v as u16)
}

/// Assemble the mail transport settings, decoding the textual port.
/// Fails exactly when the port text is not a valid port number.
pub fn get_smtp_config(
    server: String,
    port: String,
    username: String,
    password: String,
    from: String,
) -> (r: Result<SmtpConfig, WeatherError>)
    ensures
        r is Ok <==> parse_port_spec(port@) is Some,
        r is Ok ==> {
            let c = r->Ok_0;
            c.server@ == server@ && Some(c.port as int) == parse_port_spec(port@) && c.username@
                == username@ && c.password@ == password@ && c.from@ == from@
        },
        r is Err ==> r->Err_0 == WeatherError::Parse,
{
    match parse_port(port.as_str()) {
        None => Err(WeatherError::Parse),
        Some(p) => Ok(SmtpConfig { server, port: p, username, password, from }),
    }
}

/// Assemble the provider keys.
pub fn get_api_config(qweather: String, deepseek: String) -> (r: ApiConfig)
    ensures
        r.qweather@ == qweather@,
        r.deepseek@ == deepseek@,
{
    ApiConfig { qweather, deepseek }
}

} // verus!
