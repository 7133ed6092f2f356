//! Uploading and fetching media and metadata: the parameter that names the
//! content, and the replies.

use vstd::prelude::*;
use vstd::string::*;
use crate::records::{find_text, record_view, spec_find_text, Attribute};
use crate::router::{Reply, ReplyView};

verus! {

/// The reply to a request that names no content id.
pub open spec fn spec_no_content_id() -> ReplyView {
    ReplyView { status: 400, body: "400 - No content id"@ }
}

/// Takes the content id out of a request's parameters: `None` stands for a
/// request without the parameter.
pub fn require_content_id<'a>(parameter: Option<&'a str>) -> (outcome: Result<&'a str, Reply>)
    ensures
        match outcome {
            Ok(content_id) => parameter == Some(content_id),
            Err(reply) => parameter is None && reply@ == spec_no_content_id(),
        },
{
    match parameter {
        Some(content_id) => Ok(content_id),
        None => Err(Reply { status: 400, body: "400 - No content id" }),
    }
}

/// The reply to a request for the metadata of a post that is not stored.
pub fn post_not_found() -> (reply: Reply)
    ensures
        reply@ == (ReplyView { status: 404, body: "404 - Post not found"@ }),
{
    Reply { status: 404, body: "404 - Post not found" }
}

/// The reply to a request for media that is not stored. Its status is 400.
pub fn media_not_found() -> (reply: Reply)
    ensures
        reply@ == (ReplyView { status: 400, body: "404 - Post not found"@ }),
{
    Reply { status: 400, body: "404 - Post not found" }
}

/// The body that tells a client the id of its upload.
pub open spec fn spec_content_id_body(content_id: Seq<char>) -> Seq<char> {
    "{\"content_id\": \""@ + content_id + "\"}"@
}

/// The body that tells a client the id of its upload and where to send it.
pub open spec fn spec_upload_location_body(content_id: Seq<char>, url: Seq<char>) -> Seq<char> {
    "{\"content_id\": \""@ + content_id + "\", \"url\": \""@ + url + "\"}"@
}

/// Writes the body that tells a client the id of its upload.
pub fn content_id_body(content_id: &str) -> (body: String)
    ensures
        body@ == spec_content_id_body(content_id@),
{
    let mut body = "{\"content_id\": \"".to_owned();
    body.append(content_id);
    body.append("\"}");
    body
}

/// Writes the body that tells a client the id of its upload and the
/// location to send it to.
pub fn upload_location_body(content_id: &str, url: &str) -> (body: String)
    ensures
        body@ == spec_upload_location_body(content_id@, url@),
{
    let mut body = "{\"content_id\": \"".to_owned();
    body.append(content_id);
    body.append("\", \"url\": \"");
    body.append(url);
    body.append("\"}");
    body
}

/// The records of an optional item.
pub open spec fn item_view(item: Option<&Vec<Attribute>>) -> Option<Seq<Attribute>> {
    match item {
        Some(record) => Some(record@),
        None => None,
    }
}

/// What a request for the metadata of a post is answered with: the text
/// stored under `info` in the post's record, or the reply that the post is
/// not found where there is no record.
pub open spec fn spec_stored_info(item: Option<Seq<Attribute>>) -> Result<Seq<char>, ReplyView> {
    match item {
        None => Err(ReplyView { status: 404, body: "404 - Post not found"@ }),
        Some(record) => Ok(spec_find_text(record_view(record), "info"@)->0),
    }
}

/// Answers a request for the metadata of a post from what the record store
/// gave: `None` stands for no record and for a read that failed. A record
/// that was read must hold a text under `info`.
pub fn stored_info<'a>(item: Option<&'a Vec<Attribute>>) -> (outcome: Result<&'a String, Reply>)
    requires
        item matches Some(record) ==> spec_find_text(record_view(record@), "info"@) is Some,
    ensures
        match outcome {
            Ok(text) => spec_stored_info(item_view(item)) == Ok::<Seq<char>, ReplyView>(text@),
            Err(reply) => spec_stored_info(item_view(item)) == Err::<Seq<char>, ReplyView>(
                reply@,
            ),
        },
{
    match item {
        None => Err(post_not_found()),
        Some(record) => match find_text(record, "info") {
            Some(text) => Ok(text),
            None => Err(post_not_found()),
        },
    }
}

} // verus!
