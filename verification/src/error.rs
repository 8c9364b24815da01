use vstd::prelude::*;
use vstd::string::StringExecFns;

verus! {

#[verifier::external_type_specification]
#[verifier::external_body]
pub struct ExUpstreamError(reqwest::Error);

#[verifier::external_type_specification]
#[verifier::external_body]
pub struct ExTemplateError(minijinja::Error);

/// What can go wrong while serving a page.
#[derive(Debug)]
pub enum WebError {
    /// The atuin server could not be reached, or its reply could not be read.
    Upstream(reqwest::Error),
    /// A page template failed to render.
    Template(minijinja::Error),
    Unauthorized,
    NotFound,
    BadRequest(String),
}

/// The HTTP status code with which an error is answered.
pub open spec fn status_code_spec(e: WebError) -> u16 {
    match e {
        WebError::Upstream(_) => 502,
        WebError::Template(_) => 500,
        WebError::Unauthorized => 401,
        WebError::NotFound => 404,
        WebError::BadRequest(_) => 400,
    }
}

/// The text of an upstream error; `reqwest::Error`'s `to_string`. Nothing is
/// stated of the text.
#[verifier::external_body]
fn upstream_text(e: &reqwest::Error) -> String {
    e.to_string()
}

/// The text of a template error; `minijinja::Error`'s `to_string`. Nothing
/// is stated of the text.
#[verifier::external_body]
fn template_text(e: &minijinja::Error) -> String {
    e.to_string()
}

/// `m` describes `e`: exactly for the errors that carry no outside value,
/// by its opening words for the others.
pub open spec fn message_spec(e: WebError, m: Seq<char>) -> bool {
    match e {
        WebError::Upstream(_) => "upstream API error: "@.is_prefix_of(m),
        WebError::Template(_) => "template error: "@.is_prefix_of(m),
        WebError::Unauthorized => m == "not authenticated"@,
        WebError::NotFound => m == "not found"@,
        WebError::BadRequest(t) => m == t@,
    }
}

impl WebError {
    /// The HTTP status code with which the error is answered.
    pub fn status_code(&self) -> (r: u16)
        ensures
            r == status_code_spec(*self),
    {
        match self {
            WebError::Upstream(_) => 502,
            WebError::Template(_) => 500,
            WebError::Unauthorized => 401,
            WebError::NotFound => 404,
            WebError::BadRequest(_) => 400,
        }
    }

    /// The message that describes the error to the user.
    pub fn message(&self) -> (r: String)
        ensures
            message_spec(*self, r@),
    {
        match self {
            WebError::Upstream(e) => {
                let mut r = String::from_str("upstream API error: ");
                r.append(upstream_text(e).as_str());
                r
            },
            WebError::Template(e) => {
                let mut r = String::from_str("template error: ");
                r.append(template_text(e).as_str());
                r
            },
            WebError::Unauthorized => String::from_str("not authenticated"),
            WebError::NotFound => String::from_str("not found"),
            WebError::BadRequest(m) => m.clone(),
        }
    }
}

} // verus!
