use vstd::prelude::*;

verus! {

/// The ten primitive numeric kinds a property can have.
#[derive(Clone, Copy, Debug, PartialEq, Eq, Structural)]
pub enum ValueKind {
    Int8,
    UInt8,
    Int16,
    UInt16,
    Int32,
    UInt32,
    Int64,
    UInt64,
    Float32,
    Float64,
}

/// How the body of the file is written.
#[derive(Clone, Copy, Debug, PartialEq, Eq, Structural)]
pub enum FormatKind {
    Ascii,
    BigEndian,
    LittleEndian,
}

#[derive(Clone, Copy, Debug, PartialEq, Eq, Structural)]
pub struct Version {
    pub major: i32,
    pub minor: i32,
}

#[derive(Clone, Copy, Debug, PartialEq, Eq, Structural)]
pub struct Format {
    pub kind: FormatKind,
    pub version: Version,
}

/// One value per record, or a count of the first kind followed by that many values
/// of the second.
#[derive(Clone, Copy, Debug, PartialEq, Eq, Structural)]
pub enum PropertyKind {
    Scalar(ValueKind),
    List(ValueKind, ValueKind),
}

#[derive(Clone, Debug, PartialEq, Eq)]
pub struct Property {
    pub name: Vec<u8>,
    pub kind: PropertyKind,
}

#[derive(Clone, Debug, PartialEq, Eq)]
pub struct Element {
    pub name: Vec<u8>,
    pub count: u64,
    pub properties: Vec<Property>,
}

#[derive(Clone, Debug, PartialEq, Eq)]
pub struct Header {
    pub comments: Vec<Vec<u8>>,
    pub format: Format,
    pub elements: Vec<Element>,
}

pub ghost struct PropertyModel {
    pub name: Seq<u8>,
    pub kind: PropertyKind,
}

pub ghost struct ElementModel {
    pub name: Seq<u8>,
    pub count: u64,
    pub properties: Seq<PropertyModel>,
}

pub ghost struct HeaderModel {
    pub comments: Seq<Seq<u8>>,
    pub format: Format,
    pub elements: Seq<ElementModel>,
}

impl View for Property {
    type V = PropertyModel;

    open spec fn view(&self) -> PropertyModel {
        PropertyModel { name: self.name@, kind: self.kind }
    }
}

pub open spec fn properties_view(ps: Seq<Property>) -> Seq<PropertyModel> {
    ps.map_values(|p: Property| p@)
}

impl View for Element {
    type V = ElementModel;

    open spec fn view(&self) -> ElementModel {
        ElementModel { name: self.name@, count: self.count, properties: properties_view(self.properties@) }
    }
}

pub open spec fn elements_view(es: Seq<Element>) -> Seq<ElementModel> {
    es.map_values(|e: Element| e@)
}

pub open spec fn comments_view(cs: Seq<Vec<u8>>) -> Seq<Seq<u8>> {
    cs.map_values(|c: Vec<u8>| c@)
}

impl View for Header {
    type V = HeaderModel;

    open spec fn view(&self) -> HeaderModel {
        HeaderModel {
            comments: comments_view(self.comments@),
            format: self.format,
            elements: elements_view(self.elements@),
        }
    }
}

} // verus!
