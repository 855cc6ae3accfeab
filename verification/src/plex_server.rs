//! One advertised server of the directory service, as one XML element.
//!
//! The directory answers a resource query with `server` elements; the
//! type declares the element's schema once and is extracted by the
//! token-streaming matcher.

use crate::matcher::{extract_str, lemma_extract_shape};
use crate::record::FieldValueModel;
use crate::schema::{FieldSpec, FieldSpecModel, Schema, SchemaModel, ValueType};
use crate::{XmlStruct, XmlStructError};
use vstd::prelude::*;

verus! {

/// One advertised server.
#[derive(Debug, Clone)]
pub struct PlexServer {
    first_field: String,
    another_field: u64,
}

impl Default for PlexServer {
    /// The all-default server: empty text, zero count.
    fn default() -> (r: PlexServer)
        ensures
            r.record_view() == seq![
                FieldValueModel::Text(Seq::<char>::empty()),
                FieldValueModel::UInt(0),
            ],
    {
        PlexServer { first_field: String::new(), another_field: 0 }
    }
}

/// The schema of the `server` element: each field is read from the
/// attribute of its own name.
pub open spec fn server_schema_model() -> SchemaModel {
    SchemaModel {
        element_name: "server"@,
        fields: seq![
            FieldSpecModel {
                field_id: "first_field"@,
                source_name: "first_field"@,
                value_type: ValueType::Text,
            },
            FieldSpecModel {
                field_id: "another_field"@,
                source_name: "another_field"@,
                value_type: ValueType::UInt,
            },
        ],
    }
}

impl PlexServer {
    /// Builds the `server` schema.
    pub fn schema() -> (r: Schema)
        ensures
            r@ == server_schema_model(),
            r@.wf(),
    {
        proof {
            reveal_strlit("first_field");
            reveal_strlit("another_field");
            assert("first_field"@.len() == 11);
            assert("another_field"@.len() == 13);
        }
        let ghost m = server_schema_model().fields;
        let mut s = Schema::new("server");
        let added = s.add_field(FieldSpec::named("first_field", ValueType::Text));
        proof {
            assert(added);
            assert(s@.fields =~= m.take(1));
        }
        let added = s.add_field(FieldSpec::named("another_field", ValueType::UInt));
        proof {
            assert(added);
            assert(s@.fields =~= m);
        }
        s
    }

    /// The text the `first_field` attribute carried.
    pub fn first_field(&self) -> (r: &String)
        ensures
            r@ == self.record_view()[0]->Text_0,
    {
        &self.first_field
    }

    /// The number the `another_field` attribute carried.
    pub fn another_field(&self) -> (r: u64)
        ensures
            r == self.record_view()[1]->UInt_0,
    {
        self.another_field
    }
}

impl XmlStruct for PlexServer {
    open spec fn schema_model() -> SchemaModel {
        server_schema_model()
    }

    closed spec fn record_view(&self) -> Seq<FieldValueModel> {
        seq![
            FieldValueModel::Text(self.first_field@),
            FieldValueModel::UInt(self.another_field),
        ]
    }

    fn from_xml(xml_string: String) -> (r: Result<PlexServer, XmlStructError>) {
        let schema = PlexServer::schema();
        match extract_str(&schema, xml_string.as_str()) {
            Err(e) => Err(e),
            Ok(rec) => {
                proof {
                    lemma_extract_shape(server_schema_model(), xml_string@);
                }
                let server = PlexServer {
                    first_field: rec.text_at(0),
                    another_field: rec.uint_at(1),
                };
                proof {
                    assert(server.record_view() =~= rec@);
                }
                Ok(server)
            },
        }
    }
}

} // verus!
