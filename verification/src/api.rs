//! The requests made to the hourly-pricing API, and the entries it answers
//! with.

use vstd::prelude::*;

verus! {

/// One entry of the API's answer: a UTC time in milliseconds since the
/// epoch, and a price in cents per kWh, both as the API writes them.
#[derive(Clone, Debug)]
pub struct ApiEntry {
    pub millis_utc: String,
    pub price: String,
}

/// The request for the current hour's average price: the URL to fetch,
/// whose JSON answer is a list of entries.
pub fn fetch_current(base_url: &str) -> (url: String)
    ensures
        url@ == base_url@ + "/api?type=currenthouraverage"@,
{
    let mut url = String::from_str(base_url);
    url.append("/api?type=currenthouraverage");
    url
}

/// The request for the five-minute prices between two API dates
/// (`YYYYMMDDhhmm`, US Central wall clock): the URL to fetch, whose JSON
/// answer is a list of entries.
pub fn fetch_range(base_url: &str, start: &str, end: &str) -> (url: String)
    ensures
        url@ == base_url@ + "/api?type=5minutefeed&datestart="@ + start@ + "&dateend="@ + end@,
{
    let mut url = String::from_str(base_url);
    url.append("/api?type=5minutefeed&datestart=");
    url.append(start);
    url.append("&dateend=");
    url.append(end);
    url
}

} // verus!
