//! What the clock is set up with: the zones to show and the service's key,
//! and the lookup request for each zone.
use vstd::prelude::*;
use vstd::string::*;

verus! {

/// The address of one lookup: the zone and the key as query parameters.
pub open spec fn request_url(zone: Seq<char>, api_key: Seq<char>) -> Seq<char> {
    "https://timezoneapi.io/api/timezone/?"@ + zone + "&token="@ + api_key
}

/// The settings that every lookup is made with; fixed once made.
pub struct Config {
    pub api_key: String,
    pub zones: Vec<String>,
}

/// Why the clock could not be set up.
#[derive(Clone, Copy, Debug, PartialEq, Eq, Structural)]
pub enum ConfigError {
    /// No key for the service was given.
    MissingApiKey,
}

/// The zones that the clock shows unless told otherwise.
pub fn default_zones() -> (r: Vec<String>)
    ensures
        r.len() == 6,
        r[0]@ == "Europe/Lisbon"@,
        r[1]@ == "America/Fortaleza"@,
        r[2]@ == "America/Detroit"@,
        r[3]@ == "America/Chicago"@,
        r[4]@ == "America/Denver"@,
        r[5]@ == "America/Los_Angeles"@,
{
    let mut r: Vec<String> = Vec::new();
    r.push(String::from_str("Europe/Lisbon"));
    r.push(String::from_str("America/Fortaleza"));
    r.push(String::from_str("America/Detroit"));
    r.push(String::from_str("America/Chicago"));
    r.push(String::from_str("America/Denver"));
    r.push(String::from_str("America/Los_Angeles"));
    r
}

/// The address that looks up `zone` with `api_key`.
pub fn build_url(zone: &str, api_key: &str) -> (r: String)
    ensures
        r@ == request_url(zone@, api_key@),
{
    let mut r = String::from_str("https://timezoneapi.io/api/timezone/?");
    r.append(zone);
    r.append("&token=");
    r.append(api_key);
    r
}

impl Config {
    /// Settles the setup: without a key there is no configuration, and so
    /// no request can be made.
    pub fn new(api_key: Option<String>, zones: Vec<String>) -> (r: Result<Config, ConfigError>)
        ensures
            api_key is None ==> r == Err::<Config, ConfigError>(ConfigError::MissingApiKey),
            api_key is Some ==> r is Ok && r->Ok_0.api_key == api_key->Some_0
                && r->Ok_0.zones == zones,
    {
        match api_key {
            None => Err(ConfigError::MissingApiKey),
            Some(key) => Ok(Config { api_key: key, zones }),
        }
    }

    /// One request address per zone, in the order of the zones.
    pub fn request_urls(&self) -> (r: Vec<String>)
        ensures
            r.len() == self.zones.len(),
            forall|i: int|
                0 <= i < r.len() ==> (#[trigger] r[i])@ == request_url(
                    self.zones[i]@,
                    self.api_key@,
                ),
    {
        let mut r: Vec<String> = Vec::new();
        let mut i: usize = 0;
        while i < self.zones.len()
            invariant
                i <= self.zones.len(),
                r.len() == i,
                forall|j: int|
                    0 <= j < i ==> (#[trigger] r[j])@ == request_url(
                        self.zones[j]@,
                        self.api_key@,
                    ),
            decreases self.zones.len() - i,
        {
            r.push(build_url(self.zones[i].as_str(), self.api_key.as_str()));
            i = i + 1;
        }
        r
    }
}

} // verus!
