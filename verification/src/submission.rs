//! Submitting the metadata of a post.
//!
//! A submission is screened, then its media is looked up in object storage,
//! then its record is planned and stored. Looking up and storing are the
//! caller's part; each function here takes what they returned.

use vstd::prelude::*;
use vstd::string::*;
use vstd::utf8::*;
use crate::decimal::{count, decimal, int_text, nat_text};
use crate::records::{
    names_distinct,
    number_attribute,
    record_view,
    text_attribute,
    Attribute,
    AttributeView,
};
use crate::region::{format_region, get_region_i64, region_text, spec_region};
use crate::router::{Reply, ReplyView};
use crate::text::text_equal;

verus! {

/// The metadata of a post, as a client submits it.
#[derive(Clone, Debug, PartialEq, Eq)]
pub struct PostInfo {
    /// The id under which the post's media was uploaded.
    pub content_id: String,
    /// Where the post was made: `longitude,latitude`.
    pub location: String,
    /// Who submits the post.
    pub username: String,
}

/// A `PostInfo` as a mathematical value.
pub struct PostInfoView {
    pub content_id: Seq<char>,
    pub location: Seq<char>,
    pub username: Seq<char>,
}

impl View for PostInfo {
    type V = PostInfoView;

    open spec fn view(&self) -> PostInfoView {
        PostInfoView {
            content_id: self.content_id@,
            location: self.location@,
            username: self.username@,
        }
    }
}

/// The reply to a submission whose body is not the metadata of a post.
pub open spec fn spec_invalid_body() -> ReplyView {
    ReplyView { status: 400, body: "Invalid body"@ }
}

/// The reply to a submission made in another user's name.
pub open spec fn spec_not_owner() -> ReplyView {
    ReplyView { status: 401, body: "401 - Unauthorized"@ }
}

/// Whether a submission may go on: its body must have been read as the
/// metadata of a post, and the post must name the authenticated user as its
/// author.
pub open spec fn spec_screen_submission(
    identity: Seq<char>,
    info: Option<PostInfoView>,
) -> Result<(), ReplyView> {
    match info {
        None => Err(spec_invalid_body()),
        Some(info) => if info.username == identity {
            Ok(())
        } else {
            Err(spec_not_owner())
        },
    }
}

/// The view of an optional post.
pub open spec fn info_view(info: Option<&PostInfo>) -> Option<PostInfoView> {
    match info {
        Some(info) => Some(info@),
        None => None,
    }
}

/// Screens a submission before anything is looked up or stored. `info` is
/// the body read as the metadata of a post, or `None` where it could not be
/// read so.
pub fn screen_submission(identity: &str, info: Option<&PostInfo>) -> (outcome: Result<(), Reply>)
    ensures
        match outcome {
            Ok(_) => spec_screen_submission(identity@, info_view(info)) is Ok,
            Err(reply) => spec_screen_submission(identity@, info_view(info)) == Err::<
                (),
                ReplyView,
            >(reply@),
        },
{
    match info {
        None => Err(Reply { status: 400, body: "Invalid body" }),
        Some(info) => if text_equal(info.username.as_str(), identity) {
            Ok(())
        } else {
            Err(Reply { status: 401, body: "401 - Unauthorized" })
        },
    }
}

/// The record stored for a post: its id, the two cells of its region, the
/// region as one text, its location, its metadata as submitted, and the
/// time of submission in milliseconds.
pub open spec fn spec_record(
    info: PostInfoView,
    raw_info: Seq<char>,
    region: (i64, i64),
    now_ms: u64,
) -> Seq<AttributeView> {
    seq![
        text_attribute("id"@, info.content_id),
        text_attribute("r_long"@, int_text(region.0 as int)),
        text_attribute("r_lat"@, int_text(region.1 as int)),
        text_attribute("region"@, region_text(region.0, region.1)),
        text_attribute("location"@, info.location),
        text_attribute("info"@, raw_info),
        number_attribute("date"@, nat_text(now_ms as nat)),
    ]
}

/// What becomes of a screened submission once it is known whether its media
/// exists: no record without media, none without a region, else the record.
pub open spec fn spec_plan_record(
    content_exists: bool,
    info: PostInfoView,
    raw_info: Seq<char>,
    now_ms: u64,
) -> Result<Seq<AttributeView>, ReplyView> {
    if !content_exists {
        Err(ReplyView { status: 404, body: "Content not found"@ })
    } else {
        match spec_region(encode_utf8(info.location)) {
            None => Err(ReplyView { status: 400, body: "Invalid location"@ }),
            Some(region) => Ok(spec_record(info, raw_info, region, now_ms)),
        }
    }
}

/// No two attributes of a post's record have the same name.
pub proof fn lemma_record_names_distinct(
    info: PostInfoView,
    raw_info: Seq<char>,
    region: (i64, i64),
    now_ms: u64,
)
    ensures
        names_distinct(spec_record(info, raw_info, region, now_ms)),
{
    reveal_strlit("id");
    reveal_strlit("r_long");
    reveal_strlit("r_lat");
    reveal_strlit("region");
    reveal_strlit("location");
    reveal_strlit("info");
    reveal_strlit("date");
    let record = spec_record(info, raw_info, region, now_ms);
    assert("id"@.len() == 2);
    assert("r_long"@.len() == 6);
    assert("r_lat"@.len() == 5);
    assert("region"@.len() == 6);
    assert("location"@.len() == 8);
    assert("info"@.len() == 4);
    assert("date"@.len() == 4);
    assert("r_long"@[1] != "region"@[1]);
    assert("info"@[0] != "date"@[0]);
    assert(record[0].name == "id"@);
    assert(record[1].name == "r_long"@);
    assert(record[2].name == "r_lat"@);
    assert(record[3].name == "region"@);
    assert(record[4].name == "location"@);
    assert(record[5].name == "info"@);
    assert(record[6].name == "date"@);
}

/// Makes the record of a post in a region.
fn build_record(info: &PostInfo, raw_info: &str, longitude: i64, latitude: i64, now_ms: u64) -> (record:
    Vec<Attribute>)
    ensures
        record_view(record@) == spec_record(info@, raw_info@, (longitude, latitude), now_ms),
{
    let mut record: Vec<Attribute> = Vec::new();
    record.push(Attribute::text("id", info.content_id.clone()));
    record.push(Attribute::text("r_long", decimal(longitude)));
    record.push(Attribute::text("r_lat", decimal(latitude)));
    record.push(Attribute::text("region", format_region(longitude, latitude)));
    record.push(Attribute::text("location", info.location.clone()));
    record.push(Attribute::text("info", raw_info.to_owned()));
    record.push(Attribute::number("date", count(now_ms)));
    assert(record_view(record@) =~= spec_record(info@, raw_info@, (longitude, latitude), now_ms));
    record
}

/// Plans the record of a screened submission. `content_exists` tells
/// whether media is stored under the post's content id, `raw_info` is the
/// metadata as it was submitted, and `now_ms` the time.
pub fn plan_record(content_exists: bool, info: &PostInfo, raw_info: &str, now_ms: u64) -> (outcome:
    Result<Vec<Attribute>, Reply>)
    ensures
        match outcome {
            Ok(record) => spec_plan_record(content_exists, info@, raw_info@, now_ms) == Ok::<
                Seq<AttributeView>,
                ReplyView,
            >(record_view(record@)),
            Err(reply) => spec_plan_record(content_exists, info@, raw_info@, now_ms) == Err::<
                Seq<AttributeView>,
                ReplyView,
            >(reply@),
        },
        outcome matches Ok(record) ==> names_distinct(record_view(record@)),
{
    if !content_exists {
        return Err(Reply { status: 404, body: "Content not found" });
    }
    let (longitude, latitude) = match get_region_i64(info.location.as_str()) {
        Some(region) => region,
        None => {
            return Err(Reply { status: 400, body: "Invalid location" });
        },
    };
    proof {
        lemma_record_names_distinct(info@, raw_info@, (longitude, latitude), now_ms);
    }
    Ok(build_record(info, raw_info, longitude, latitude, now_ms))
}

/// The reply that ends a submission: success with an empty body where the
/// record was stored, a fault of the service where it was not.
pub open spec fn spec_submission_reply(stored: bool) -> ReplyView {
    if stored {
        ReplyView { status: 200, body: ""@ }
    } else {
        ReplyView { status: 500, body: "Mb :("@ }
    }
}

/// Ends a submission.
pub fn submission_reply(stored: bool) -> (reply: Reply)
    ensures
        reply@ == spec_submission_reply(stored),
{
    if stored {
        Reply { status: 200, body: "" }
    } else {
        Reply { status: 500, body: "Mb :(" }
    }
}

} // verus!
