//! The decisions of a download: which URL to ask, and what to do with the status
//! of the answer.

use vstd::prelude::*;
use vstd::string::*;

use crate::error::DocsError;
use crate::meaning::law_url_is_made_of_its_parts;

verus! {

/// The URL at which docs.rs serves the compressed rustdoc JSON of a crate:
/// `https://docs.rs/crate/{name}/{version}/json`.
pub open spec fn rustdoc_json_url_of(crate_name: Seq<char>, version: Seq<char>) -> Seq<char> {
    "https://docs.rs/crate/"@ + crate_name + "/"@ + version + "/json"@
}

/// The URL at which docs.rs serves the compressed rustdoc JSON of a crate.
pub fn rustdoc_json_url(crate_name: &str, version: &str) -> (url: String)
    ensures
        url@ == rustdoc_json_url_of(crate_name@, version@),
        ({
            let start = "https://docs.rs/crate/"@;
            let end = "/json"@;
            let slash: int = start.len() + crate_name@.len() as int;
            let rest: int = slash + 1 + version@.len();
            &&& url@.len() == rest + end.len()
            &&& url@.take(start.len() as int) == start
            &&& url@.subrange(start.len() as int, slash) == crate_name@
            &&& url@[slash] == '/'
            &&& url@.subrange(slash + 1, rest) == version@
            &&& url@.skip(rest) == end
        }),
{
    let mut url: String = "https://docs.rs/crate/".to_owned();
    url.append(crate_name);
    url.append("/");
    url.append(version);
    url.append("/json");
    proof {
        law_url_is_made_of_its_parts(crate_name@, version@);
    }
    url
}

/// What to do with an answer, by its status.
#[derive(Debug)]
pub enum ResponseAction {
    /// Read the body: it is the result.
    ReadBody,
    /// Report the status itself as the error.
    RejectStatus,
    /// Give up with this error.
    Fail(DocsError),
}

/// What to do with an answer of HTTP status `status` to a request for the
/// rustdoc JSON of a crate.
///
/// "Not found" means that there is no such JSON. The other client errors and the
/// server errors, the statuses from 400 to 599, are errors as they stand. With
/// any other status the body is what was asked for.
pub fn response_action(status: u16, crate_name: &str, version: &str) -> (action: ResponseAction)
    ensures
        match action {
            ResponseAction::Fail(DocsError::JsonNotAvailable { crate_name: name, version: v }) => {
                &&& status == 404
                &&& name@ == crate_name@
                &&& v@ == version@
            },
            ResponseAction::Fail(_) => false,
            ResponseAction::RejectStatus => 400 <= status < 600 && status != 404,
            ResponseAction::ReadBody => !(400 <= status < 600),
        },
{
    if status == 404 {
        ResponseAction::Fail(
            DocsError::JsonNotAvailable {
                crate_name: crate_name.to_owned(),
                version: version.to_owned(),
            },
        )
    } else if 400 <= status && status < 600 {
        ResponseAction::RejectStatus
    } else {
        ResponseAction::ReadBody
    }
}

} // verus!
