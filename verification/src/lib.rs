//! An attribute-mapping XML extraction engine.
//!
//! The library turns raw XML text into a populated record by matching a
//! target element name and copying named attributes into typed fields.
//! A [`schema::Schema`] declares, once per record type, which element and
//! which attributes feed which fields; two interchangeable strategies
//! consume it:
//!
//! - the token-streaming matcher ([`matcher`]): a forward-only walk over
//!   the XML tokens, honouring the first element whose name matches the
//!   schema and coercing each named attribute to its declared type;
//! - the pattern-matching extractor ([`patterns`]): a best-effort,
//!   whole-text search for attribute-shaped substrings, trading the
//!   matcher's guarantees for throughput.
//!
//! Both strategies are pure functions of (schema, text): they perform no
//! I/O, retain no state across calls, and return either a populated record
//! or a tagged [`XmlStructError`].

use vstd::prelude::*;

pub mod matcher;
pub mod numbers;
pub mod patterns;
pub mod plex_server;
pub mod plex_user;
pub mod record;
pub mod schema;
pub mod text;
pub mod tokenizer;
pub mod unescape;

verus! {

/// The failures an extraction can report.
///
/// Missing attributes are not errors: an absent attribute leaves its field
/// at the type's default value.
#[derive(Debug)]
pub enum XmlStructError {
    /// The input is not well formed enough for the tokenizer to proceed:
    /// an unterminated construct or a malformed tag. Carries the byte
    /// position at which tokenizing stopped.
    Syntax { pos: usize },
    /// An attribute value was present but could not be converted to the
    /// field's declared type. Carries the field and the offending text.
    TypeCoercion { field_id: String, text: String },
    /// A declared pattern failed to compile when building a pattern set.
    /// Carries the index of the offending pattern.
    PatternCompilation { index: usize },
}

/// The mathematical shadow of [`XmlStructError`], used by contracts.
pub enum ErrorModel {
    SyntaxModel { pos: int },
    TypeCoercionModel { field_id: Seq<char>, text: Seq<char> },
    PatternCompilationModel { index: int },
}

impl View for XmlStructError {
    type V = ErrorModel;

    open spec fn view(&self) -> ErrorModel {
        match self {
            XmlStructError::Syntax { pos } => ErrorModel::SyntaxModel { pos: *pos as int },
            XmlStructError::TypeCoercion { field_id, text } => ErrorModel::TypeCoercionModel {
                field_id: field_id@,
                text: text@,
            },
            XmlStructError::PatternCompilation { index } => ErrorModel::PatternCompilationModel {
                index: *index as int,
            },
        }
    }
}

/// A type extracted from one XML element's attributes.
///
/// The type names the schema it is read under; `from_xml` runs the
/// token-streaming matcher and packs the record into the type's fields.
pub trait XmlStruct where Self: Sized + Default {
    /// The schema the type is extracted under.
    spec fn schema_model() -> crate::schema::SchemaModel;

    /// The record a value of the type stands for.
    spec fn record_view(&self) -> Seq<crate::record::FieldValueModel>;

    /// Builds a value of the type from raw XML text, by the
    /// token-streaming matcher under the type's schema.
    fn from_xml(xml_string: String) -> (r: Result<Self, XmlStructError>)
        ensures
            match crate::matcher::extract_spec(Self::schema_model(), xml_string@) {
                Ok(rec) => r matches Ok(v) && v.record_view() == rec,
                Err(e) => r matches Err(err) && err@ == e,
            },
    ;
}

} // verus!
