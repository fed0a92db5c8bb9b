//! Reader for the Polygon File Format: a text header that declares a schema,
//! followed by a body in ASCII or binary that the schema describes.
//!
//! `parse_header` reads the header and tells where the body starts; `decode_body`
//! then decodes the body as the header describes it. Both are proved to compute
//! exactly what the grammar and the decoding rules in the spec functions say.
//!
//! Floating-point values are not converted here: a binary body gives their IEEE 754
//! bits, an ASCII body the text of a token checked against the decimal grammar.
//! `laws` and `roundtrip` hold the proofs that values and headers survive being
//! written out and read back; `split` the proof that a body can be decoded element
//! group by element group.
mod lex;
mod tags;
mod types;
mod header;
mod value;
mod body;
mod laws;
mod roundtrip;
mod split;

pub use lex::is_identifier;
pub use tags::Tag;
pub use types::{Element, Format, FormatKind, Header, Property, PropertyKind, ValueKind, Version};
pub use header::{Expected, ParseError, parse_header, property, element, comment, format_decl, data_type};
pub use value::{DecodeError, Float, Value, decode_scalar};
pub use body::{PropertyValue, Record, decode_body, decode_property, decode_record, decode_element};
