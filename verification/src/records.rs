//! Records of the record store, as far as the post service reads and
//! writes them: named texts and numbers.

use vstd::prelude::*;
use vstd::string::*;
use crate::text::text_equal;

verus! {

/// A value in the record store: a text, a number in decimal, or something
/// else.
#[derive(Clone, Debug, PartialEq, Eq)]
pub enum AttributeValue {
    /// A text.
    S(String),
    /// A number, written in decimal.
    N(String),
    /// A value of another kind, which the service neither reads nor writes.
    Other,
}

/// An `AttributeValue` as a mathematical value.
pub enum ValueView {
    S(Seq<char>),
    N(Seq<char>),
    Other,
}

impl View for AttributeValue {
    type V = ValueView;

    open spec fn view(&self) -> ValueView {
        match *self {
            AttributeValue::S(text) => ValueView::S(text@),
            AttributeValue::N(number) => ValueView::N(number@),
            AttributeValue::Other => ValueView::Other,
        }
    }
}

/// A named value of a record.
#[derive(Clone, Debug, PartialEq, Eq)]
pub struct Attribute {
    pub name: String,
    pub value: AttributeValue,
}

/// An `Attribute` as a mathematical value.
pub struct AttributeView {
    pub name: Seq<char>,
    pub value: ValueView,
}

impl View for Attribute {
    type V = AttributeView;

    open spec fn view(&self) -> AttributeView {
        AttributeView { name: self.name@, value: self.value@ }
    }
}

/// The attributes of a record as mathematical values, in order.
pub open spec fn record_view(record: Seq<Attribute>) -> Seq<AttributeView> {
    Seq::new(record.len(), |i: int| record[i]@)
}

/// A text attribute.
pub open spec fn text_attribute(name: Seq<char>, text: Seq<char>) -> AttributeView {
    AttributeView { name, value: ValueView::S(text) }
}

/// A number attribute.
pub open spec fn number_attribute(name: Seq<char>, number: Seq<char>) -> AttributeView {
    AttributeView { name, value: ValueView::N(number) }
}

impl Attribute {
    /// Makes a text attribute.
    pub fn text(name: &str, value: String) -> (attribute: Attribute)
        ensures
            attribute@ == text_attribute(name@, value@),
    {
        Attribute { name: name.to_owned(), value: AttributeValue::S(value) }
    }

    /// Makes a number attribute.
    pub fn number(name: &str, value: String) -> (attribute: Attribute)
        ensures
            attribute@ == number_attribute(name@, value@),
    {
        Attribute { name: name.to_owned(), value: AttributeValue::N(value) }
    }

    /// Makes an attribute of another kind.
    pub fn other(name: &str) -> (attribute: Attribute)
        ensures
            attribute@ == (AttributeView { name: name@, value: ValueView::Other }),
    {
        Attribute { name: name.to_owned(), value: AttributeValue::Other }
    }
}

/// The text stored under a name in a record: the value of the first
/// attribute of that name, if it is a text. `None` where the record has no
/// such attribute or its first one is no text.
pub open spec fn spec_find_text(record: Seq<AttributeView>, name: Seq<char>) -> Option<Seq<char>>
    decreases record.len(),
{
    if record.len() == 0 {
        None
    } else if record[0].name == name {
        match record[0].value {
            ValueView::S(text) => Some(text),
            _ => None,
        }
    } else {
        spec_find_text(record.skip(1), name)
    }
}

/// Finds the text stored under a name in a record.
pub fn find_text<'a>(record: &'a Vec<Attribute>, name: &str) -> (found: Option<&'a String>)
    ensures
        match found {
            Some(text) => spec_find_text(record_view(record@), name@) == Some(text@),
            None => spec_find_text(record_view(record@), name@) is None,
        },
{
    let ghost whole = record_view(record@);
    assert(whole.skip(0) =~= whole);
    let mut i: usize = 0;
    while i < record.len()
        invariant
            i <= record.len(),
            whole == record_view(record@),
            spec_find_text(whole, name@) == spec_find_text(whole.skip(i as int), name@),
        decreases record.len() - i,
    {
        let ghost rest = whole.skip(i as int);
        assert(rest[0] == record@[i as int]@);
        assert(rest.skip(1) =~= whole.skip(i + 1));
        if text_equal(record[i].name.as_str(), name) {
            return match &record[i].value {
                AttributeValue::S(text) => Some(text),
                _ => None,
            };
        }
        i += 1;
    }
    None
}

/// Whether no two attributes of a record have the same name, as in a map
/// from names to values.
pub open spec fn names_distinct(record: Seq<AttributeView>) -> bool {
    forall|i: int, j: int|
        0 <= i < j < record.len() ==> (#[trigger] record[i]).name != (#[trigger] record[j]).name
}

/// Whether a record has an attribute of a name, of whatever kind.
pub open spec fn spec_has_name(record: Seq<AttributeView>, name: Seq<char>) -> bool {
    exists|i: int| 0 <= i < record.len() && (#[trigger] record[i]).name == name
}

/// Tells whether a record has an attribute of a name.
pub fn has_name(record: &Vec<Attribute>, name: &str) -> (found: bool)
    ensures
        found == spec_has_name(record_view(record@), name@),
{
    let ghost whole = record_view(record@);
    let mut i: usize = 0;
    while i < record.len()
        invariant
            i <= record.len(),
            whole == record_view(record@),
            forall|k: int| 0 <= k < i ==> (#[trigger] whole[k]).name != name@,
        decreases record.len() - i,
    {
        assert(whole[i as int] == record@[i as int]@);
        if text_equal(record[i].name.as_str(), name) {
            return true;
        }
        i += 1;
    }
    false
}

} // verus!
