//! The errors of the library, and the messages that describe them.

use vstd::prelude::*;

verus! {

/// Why a request could not be served.
#[derive(Debug)]
pub enum CepError {
    InvalidOptionValue { option: String, value: String, possible: String },
    InvalidDateFormat { input: String },
    StartNotBeforeEnd,
    InvalidInterval { input: String },
    Api(String),
    Output(String),
}

/// A `CepError` with its texts as character sequences.
pub enum CepErrorView {
    InvalidOptionValue { option: Seq<char>, value: Seq<char>, possible: Seq<char> },
    InvalidDateFormat { input: Seq<char> },
    StartNotBeforeEnd,
    InvalidInterval { input: Seq<char> },
    Api(Seq<char>),
    Output(Seq<char>),
}

impl View for CepError {
    type V = CepErrorView;

    open spec fn view(&self) -> CepErrorView {
        match self {
            CepError::InvalidOptionValue { option, value, possible } => CepErrorView::InvalidOptionValue {
                option: option@,
                value: value@,
                possible: possible@,
            },
            CepError::InvalidDateFormat { input } => CepErrorView::InvalidDateFormat { input: input@ },
            CepError::StartNotBeforeEnd => CepErrorView::StartNotBeforeEnd,
            CepError::InvalidInterval { input } => CepErrorView::InvalidInterval { input: input@ },
            CepError::Api(m) => CepErrorView::Api(m@),
            CepError::Output(m) => CepErrorView::Output(m@),
        }
    }
}

/// The one-line description of an error.
pub open spec fn message_text(e: CepErrorView) -> Seq<char> {
    match e {
        CepErrorView::InvalidOptionValue { option, value, possible } => "Invalid value '"@ + value
            + "' for --"@ + option + ". Possible values: "@ + possible,
        CepErrorView::InvalidDateFormat { input } => "Invalid date format '"@ + input
            + "': expected YYYYMMDDhhmm (e.g. 202505151430)"@,
        CepErrorView::StartNotBeforeEnd => "--start must be before --end"@,
        CepErrorView::InvalidInterval { input } => "Invalid interval '"@ + input
            + "': must be like 5m, 2h, 1d (units: m/h/d, min 5m, max 7d)"@,
        CepErrorView::Api(m) => "API error: "@ + m,
        CepErrorView::Output(m) => "Output error: "@ + m,
    }
}

impl CepError {
    /// The text that describes the error to a user.
    pub fn message(&self) -> (r: String)
        ensures
            r@ == message_text(self@),
    {
        match self {
            CepError::InvalidOptionValue { option, value, possible } => {
                let mut s = String::from_str("Invalid value '");
                s.append(value.as_str());
                s.append("' for --");
                s.append(option.as_str());
                s.append(". Possible values: ");
                s.append(possible.as_str());
                s
            },
            CepError::InvalidDateFormat { input } => {
                let mut s = String::from_str("Invalid date format '");
                s.append(input.as_str());
                s.append("': expected YYYYMMDDhhmm (e.g. 202505151430)");
                s
            },
            CepError::StartNotBeforeEnd => String::from_str("--start must be before --end"),
            CepError::InvalidInterval { input } => {
                let mut s = String::from_str("Invalid interval '");
                s.append(input.as_str());
                s.append("': must be like 5m, 2h, 1d (units: m/h/d, min 5m, max 7d)");
                s
            },
            CepError::Api(m) => {
                let mut s = String::from_str("API error: ");
                s.append(m.as_str());
                s
            },
            CepError::Output(m) => {
                let mut s = String::from_str("Output error: ");
                s.append(m.as_str());
                s
            },
        }
    }
}

} // verus!
