//! Recommending posts near a location: what is searched for, in which
//! order the posts come, and how the answer is written.
//!
//! The search itself and the ordering of what it finds are the caller's
//! part.

use vstd::prelude::*;
use vstd::string::*;
use vstd::utf8::*;
use crate::decimal::{decimal, int_text};
use crate::records::{names_distinct, record_view, text_attribute, Attribute, AttributeView};
use crate::region::{get_region_i64, spec_region};
use crate::router::{Reply, ReplyView};
use crate::text::text_equal;
use crate::trusted::{debug_quoted, quote};

verus! {

/// How recommended posts are ordered.
#[derive(Clone, Copy, Debug, PartialEq, Eq, Structural)]
pub enum SortOrder {
    /// By weight, the heaviest first.
    Weight,
    /// By distance, the nearest first.
    Distance,
}

/// The order that a request asks for: by distance where its parameter says
/// `location`, by weight where it says anything else or nothing.
pub open spec fn spec_sort_order(parameter: Option<Seq<char>>) -> SortOrder {
    if parameter == Some("location"@) {
        SortOrder::Distance
    } else {
        SortOrder::Weight
    }
}

/// The text that an optional parameter holds.
pub open spec fn parameter_view(parameter: Option<&str>) -> Option<Seq<char>> {
    match parameter {
        Some(text) => Some(text@),
        None => None,
    }
}

/// Reads the order that a request asks for.
pub fn sort_order(parameter: Option<&str>) -> (order: SortOrder)
    ensures
        order == spec_sort_order(parameter_view(parameter)),
{
    match parameter {
        Some(text) => if text_equal(text, "location") {
            SortOrder::Distance
        } else {
            SortOrder::Weight
        },
        None => SortOrder::Weight,
    }
}

/// The cell next to a cell in the direction of `step`. The grid is closed:
/// past its last cell comes its first.
pub open spec fn neighbour(cell: i64, step: int) -> int {
    if cell + step > i64::MAX {
        cell + step - 0x1_0000_0000_0000_0000
    } else if cell + step < i64::MIN {
        cell + step + 0x1_0000_0000_0000_0000
    } else {
        cell + step
    }
}

/// The values that a search around a region is made with: the region's two
/// cells and, of each, the cell after and the cell before.
pub open spec fn spec_search_values(region: (i64, i64)) -> Seq<AttributeView> {
    seq![
        text_attribute(":long"@, int_text(region.0 as int)),
        text_attribute(":longP"@, int_text(neighbour(region.0, 1))),
        text_attribute(":longN"@, int_text(neighbour(region.0, -1))),
        text_attribute(":lat"@, int_text(region.1 as int)),
        text_attribute(":latP"@, int_text(neighbour(region.1, 1))),
        text_attribute(":latN"@, int_text(neighbour(region.1, -1))),
    ]
}

/// What a request for recommendations searches with: nothing without a
/// location, nothing for a location without a region, else the values for
/// the region of the location and the eight regions around it.
pub open spec fn spec_plan_search(location: Option<Seq<char>>) -> Result<
    Seq<AttributeView>,
    ReplyView,
> {
    match location {
        None => Err(ReplyView { status: 400, body: "400 - No location"@ }),
        Some(location) => match spec_region(encode_utf8(location)) {
            None => Err(ReplyView { status: 400, body: "400 - Invalid location"@ }),
            Some(region) => Ok(spec_search_values(region)),
        },
    }
}

/// No two values of a search have the same name.
pub proof fn lemma_search_names_distinct(region: (i64, i64))
    ensures
        names_distinct(spec_search_values(region)),
{
    reveal_strlit(":long");
    reveal_strlit(":longP");
    reveal_strlit(":longN");
    reveal_strlit(":lat");
    reveal_strlit(":latP");
    reveal_strlit(":latN");
    let values = spec_search_values(region);
    assert(":long"@.len() == 5);
    assert(":longP"@.len() == 6);
    assert(":longN"@.len() == 6);
    assert(":lat"@.len() == 4);
    assert(":latP"@.len() == 5);
    assert(":latN"@.len() == 5);
    assert(":longP"@[5] != ":longN"@[5]);
    assert(":long"@[2] != ":latP"@[2]);
    assert(":long"@[2] != ":latN"@[2]);
    assert(":latP"@[4] != ":latN"@[4]);
    assert(values[0].name == ":long"@);
    assert(values[1].name == ":longP"@);
    assert(values[2].name == ":longN"@);
    assert(values[3].name == ":lat"@);
    assert(values[4].name == ":latP"@);
    assert(values[5].name == ":latN"@);
}

/// Makes the values that a search around a region is made with.
fn search_values(longitude: i64, latitude: i64) -> (values: Vec<Attribute>)
    ensures
        record_view(values@) == spec_search_values((longitude, latitude)),
{
    let mut values: Vec<Attribute> = Vec::new();
    values.push(Attribute::text(":long", decimal(longitude)));
    values.push(Attribute::text(":longP", decimal(longitude.wrapping_add(1))));
    values.push(Attribute::text(":longN", decimal(longitude.wrapping_sub(1))));
    values.push(Attribute::text(":lat", decimal(latitude)));
    values.push(Attribute::text(":latP", decimal(latitude.wrapping_add(1))));
    values.push(Attribute::text(":latN", decimal(latitude.wrapping_sub(1))));
    assert(record_view(values@) =~= spec_search_values((longitude, latitude)));
    values
}

/// Plans the search for recommendations around a location: `None` stands
/// for a request without the parameter.
pub fn plan_search(location: Option<&str>) -> (outcome: Result<Vec<Attribute>, Reply>)
    ensures
        match outcome {
            Ok(values) => spec_plan_search(parameter_view(location)) == Ok::<
                Seq<AttributeView>,
                ReplyView,
            >(record_view(values@)),
            Err(reply) => spec_plan_search(parameter_view(location)) == Err::<
                Seq<AttributeView>,
                ReplyView,
            >(reply@),
        },
        outcome matches Ok(values) ==> names_distinct(record_view(values@)),
{
    let location = match location {
        Some(location) => location,
        None => {
            return Err(Reply { status: 400, body: "400 - No location" });
        },
    };
    let (longitude, latitude) = match get_region_i64(location) {
        Some(region) => region,
        None => {
            return Err(Reply { status: 400, body: "400 - Invalid location" });
        },
    };
    proof {
        lemma_search_names_distinct((longitude, latitude));
    }
    Ok(search_values(longitude, latitude))
}

/// The texts of a list of ids.
pub open spec fn ids_view(ids: Seq<String>) -> Seq<Seq<char>> {
    Seq::new(ids.len(), |i: int| ids[i]@)
}

/// Quoted texts in a row, with a comma and a space between each two.
pub open spec fn joined(quoted: Seq<Seq<char>>) -> Seq<char>
    decreases quoted.len(),
{
    if quoted.len() == 0 {
        Seq::empty()
    } else if quoted.len() == 1 {
        quoted[0]
    } else {
        joined(quoted.drop_last()) + ", "@ + quoted.last()
    }
}

/// A list of ids as a reply body: each id quoted, in the order given,
/// between square brackets.
pub open spec fn spec_render_ids(ids: Seq<Seq<char>>) -> Seq<char> {
    "["@ + joined(Seq::new(ids.len(), |i: int| debug_quoted(ids[i]))) + "]"@
}

/// Renders a list of ids as a reply body.
pub fn render_ids(ids: &Vec<String>) -> (body: String)
    ensures
        body@ == spec_render_ids(ids_view(ids@)),
{
    let ghost texts = ids_view(ids@);
    let ghost quoted = Seq::new(texts.len(), |i: int| debug_quoted(texts[i]));
    let mut body = "[".to_owned();
    let mut i: usize = 0;
    while i < ids.len()
        invariant
            i <= ids.len(),
            texts == ids_view(ids@),
            quoted == Seq::new(texts.len(), |i: int| debug_quoted(texts[i])),
            body@ == "["@ + joined(quoted.take(i as int)),
        decreases ids.len() - i,
    {
        let ghost done = quoted.take(i as int);
        let ghost next = quoted.take(i + 1);
        assert(next.drop_last() =~= done);
        assert(next.last() == debug_quoted(ids@[i as int]@));
        if i > 0 {
            body.append(", ");
        }
        body.append(quote(ids[i].as_str()).as_str());
        assert(body@ =~= "["@ + joined(next));
        i += 1;
    }
    assert(quoted.take(i as int) =~= quoted);
    body.append("]");
    body
}

} // verus!
