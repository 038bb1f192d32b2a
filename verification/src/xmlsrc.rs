use vstd::prelude::*;
use crate::errors::{ErrorModel, GenError};
use crate::text::same_text;

verus! {

/// An attribute of an XML element: its local name and its value.
pub struct Attribute {
    pub name: String,
    pub value: String,
}

pub struct AttrModel {
    pub name: Seq<char>,
    pub value: Seq<char>,
}

impl View for Attribute {
    type V = AttrModel;

    open spec fn view(&self) -> AttrModel {
        AttrModel { name: self.name@, value: self.value@ }
    }
}

/// One event of reading an XML document, as far as code generation looks at it.
pub enum XmlItem {
    /// An element starts: its local name and attributes.
    Start { name: String, attributes: Vec<Attribute> },
    /// An element ends: its local name.
    End { name: String },
    /// Anything else that the reader reports (text, comments, the document's start and end).
    Other,
    /// The reader found the input malformed; nothing follows.
    Failure(xml::reader::Error),
}

pub enum XmlItemModel {
    Start { name: Seq<char>, attributes: Seq<AttrModel> },
    End { name: Seq<char> },
    Other,
    Failure(xml::reader::Error),
}

impl View for XmlItem {
    type V = XmlItemModel;

    open spec fn view(&self) -> XmlItemModel {
        match self {
            XmlItem::Start { name, attributes } => XmlItemModel::Start {
                name: name@,
                attributes: attrs_view(*attributes),
            },
            XmlItem::End { name } => XmlItemModel::End { name: name@ },
            XmlItem::Other => XmlItemModel::Other,
            XmlItem::Failure(e) => XmlItemModel::Failure(*e),
        }
    }
}

pub open spec fn attrs_view(a: Vec<Attribute>) -> Seq<AttrModel> {
    a@.map_values(|x: Attribute| x@)
}

pub open spec fn items_view(v: Vec<XmlItem>) -> Seq<XmlItemModel> {
    v@.map_values(|e: XmlItem| e@)
}

/// The events that the `xml-rs` reader reports for a document, up to and including the
/// first failure.
pub uninterp spec fn xml_events_of(data: Seq<char>) -> Seq<XmlItemModel>;

/// Runs the event reader of `xml-rs` (`xml::EventReader`) over `xmldata` and collects
/// the events it reports, each reduced to what code generation reads. As its source shows,
/// its iterator stops after the first failure, so only the last event can be one. What
/// the events are is not stated otherwise (that is the XML parser's work); they are named
/// as a function of the input alone.
#[verifier::external_body]
pub(crate) fn xml_events(xmldata: &str) -> (r: Vec<XmlItem>)
    ensures
        items_view(r) == xml_events_of(xmldata@),
        forall|k: int| 0 <= k < r.len() - 1 ==> !(#[trigger] r@[k] is Failure),
{
    let mut r = Vec::new();
    for e in xml::EventReader::from_str(xmldata) {
        r.push(match e {
            Ok(xml::reader::XmlEvent::StartElement { name, attributes, .. }) => XmlItem::Start {
                name: name.local_name,
                attributes: attributes.into_iter().map(|a| Attribute { name: a.name.local_name, value: a.value }).collect(),
            },
            Ok(xml::reader::XmlEvent::EndElement { name }) => XmlItem::End { name: name.local_name },
            Ok(_) => XmlItem::Other,
            Err(err) => XmlItem::Failure(err),
        });
    }
    r
}

/// The value of the first attribute named `n`.
pub open spec fn attr_value(attrs: Seq<AttrModel>, n: Seq<char>) -> Option<Seq<char>>
    decreases attrs.len(),
{
    if attrs.len() == 0 {
        None
    } else if attrs[0].name == n {
        Some(attrs[0].value)
    } else {
        attr_value(attrs.drop_first(), n)
    }
}

/// The value of the first attribute named `n`, or an error where there is none.
pub fn find_attr<'a>(a: &'a Vec<Attribute>, n: &str) -> (r: Result<&'a str, GenError>)
    ensures
        match attr_value(attrs_view(*a), n@) {
            Some(v) => r matches Ok(x) && x@ == v,
            None => r matches Err(e) && e@ == ErrorModel::AttributeNotFound,
        },
{
    let ghost attrs = attrs_view(*a);
    let len = a.len();
    let mut k: usize = 0;
    assert(attrs.skip(0) =~= attrs);
    while k < len
        invariant
            len == a.len(),
            attrs == attrs_view(*a),
            k <= len,
            attr_value(attrs, n@) == attr_value(attrs.skip(k as int), n@),
        decreases len - k,
    {
        assert(attrs.skip(k as int)[0] == a@[k as int]@);
        assert(attrs.skip(k as int).drop_first() =~= attrs.skip(k + 1));
        if same_text(a[k].name.as_str(), n) {
            return Ok(a[k].value.as_str());
        }
        k = k + 1;
    }
    assert(attrs.skip(len as int).len() == 0);
    Err(GenError::AttributeNotFound)
}

} // verus!
