//! The account record of the directory service, as one XML element.
//!
//! The service answers a sign-in with a `user` element whose attributes
//! carry the account's identifiers and the token later requests
//! authenticate with. The type declares the element's schema once; both
//! extraction strategies read it from there.

use crate::matcher::{extract_str, lemma_extract_shape};
use crate::patterns::{is_word_char, pattern_ok, Pattern, PatternModel, PatternSet};
use crate::record::FieldValueModel;
use crate::schema::{FieldSpec, FieldSpecModel, Schema, SchemaModel, ValueType};
use crate::{ErrorModel, XmlStruct, XmlStructError};
use vstd::prelude::*;

verus! {

/// One account of the directory service.
#[derive(Debug, Clone)]
pub struct PlexUser {
    pub id: u64,
    pub uuid: String,
    pub email: String,
    pub username: String,
    pub title: String,
    pub thumb: String,
    pub auth_token: String,
}

impl Default for PlexUser {
    /// The all-default account: zero id, every text field empty.
    fn default() -> (r: PlexUser)
        ensures
            r.id == 0,
            r.uuid@ == Seq::<char>::empty(),
            r.email@ == Seq::<char>::empty(),
            r.username@ == Seq::<char>::empty(),
            r.title@ == Seq::<char>::empty(),
            r.thumb@ == Seq::<char>::empty(),
            r.auth_token@ == Seq::<char>::empty(),
    {
        PlexUser {
            id: 0,
            uuid: String::new(),
            email: String::new(),
            username: String::new(),
            title: String::new(),
            thumb: String::new(),
            auth_token: String::new(),
        }
    }
}

/// The schema of the `user` element: each field is read from the
/// attribute of its own name, except the token, which the service
/// sends as `authToken`.
pub open spec fn user_schema_model() -> SchemaModel {
    SchemaModel {
        element_name: "user"@,
        fields: seq![
            FieldSpecModel { field_id: "id"@, source_name: "id"@, value_type: ValueType::UInt },
            FieldSpecModel {
                field_id: "uuid"@,
                source_name: "uuid"@,
                value_type: ValueType::Text,
            },
            FieldSpecModel {
                field_id: "email"@,
                source_name: "email"@,
                value_type: ValueType::Text,
            },
            FieldSpecModel {
                field_id: "username"@,
                source_name: "username"@,
                value_type: ValueType::Text,
            },
            FieldSpecModel {
                field_id: "title"@,
                source_name: "title"@,
                value_type: ValueType::Text,
            },
            FieldSpecModel {
                field_id: "thumb"@,
                source_name: "thumb"@,
                value_type: ValueType::Text,
            },
            FieldSpecModel {
                field_id: "auth_token"@,
                source_name: "authToken"@,
                value_type: ValueType::Text,
            },
        ],
    }
}

impl PlexUser {
    /// Builds the `user` schema.
    pub fn schema() -> (r: Schema)
        ensures
            r@ == user_schema_model(),
            r@.wf(),
    {
        proof {
            reveal_strlit("id");
            reveal_strlit("uuid");
            reveal_strlit("email");
            reveal_strlit("username");
            reveal_strlit("title");
            reveal_strlit("thumb");
            reveal_strlit("auth_token");
            assert("id"@.len() == 2);
            assert("uuid"@.len() == 4);
            assert("email"@.len() == 5);
            assert("username"@.len() == 8);
            assert("title"@.len() == 5);
            assert("thumb"@.len() == 5);
            assert("auth_token"@.len() == 10);
            assert("email"@[0] == 'e');
            assert("title"@[0] == 't');
            assert("thumb"@[0] == 't');
            assert("title"@[1] == 'i');
            assert("thumb"@[1] == 'h');
        }
        let ghost m = user_schema_model().fields;
        let mut s = Schema::new("user");
        let added = s.add_field(FieldSpec::named("id", ValueType::UInt));
        proof {
            assert(added);
            assert(s@.fields =~= m.take(1));
        }
        let added = s.add_field(FieldSpec::named("uuid", ValueType::Text));
        proof {
            assert(added);
            assert(s@.fields =~= m.take(2));
        }
        let added = s.add_field(FieldSpec::named("email", ValueType::Text));
        proof {
            assert(added);
            assert(s@.fields =~= m.take(3));
        }
        let added = s.add_field(FieldSpec::named("username", ValueType::Text));
        proof {
            assert(added);
            assert(s@.fields =~= m.take(4));
        }
        let added = s.add_field(FieldSpec::named("title", ValueType::Text));
        proof {
            assert(added);
            assert(s@.fields =~= m.take(5));
        }
        let added = s.add_field(FieldSpec::named("thumb", ValueType::Text));
        proof {
            assert(added);
            assert(s@.fields =~= m.take(6));
        }
        let added = s.add_field(FieldSpec::renamed("auth_token", "authToken", ValueType::Text));
        proof {
            assert(added);
            assert(s@.fields =~= m);
        }
        s
    }
}

impl XmlStruct for PlexUser {
    open spec fn schema_model() -> SchemaModel {
        user_schema_model()
    }

    open spec fn record_view(&self) -> Seq<FieldValueModel> {
        seq![
            FieldValueModel::UInt(self.id),
            FieldValueModel::Text(self.uuid@),
            FieldValueModel::Text(self.email@),
            FieldValueModel::Text(self.username@),
            FieldValueModel::Text(self.title@),
            FieldValueModel::Text(self.thumb@),
            FieldValueModel::Text(self.auth_token@),
        ]
    }

    fn from_xml(xml_string: String) -> (r: Result<PlexUser, XmlStructError>) {
        let schema = PlexUser::schema();
        match extract_str(&schema, xml_string.as_str()) {
            Err(e) => Err(e),
            Ok(rec) => {
                proof {
                    lemma_extract_shape(user_schema_model(), xml_string@);
                }
                let user = PlexUser {
                    id: rec.uint_at(0),
                    uuid: rec.text_at(1),
                    email: rec.text_at(2),
                    username: rec.text_at(3),
                    title: rec.text_at(4),
                    thumb: rec.text_at(5),
                    auth_token: rec.text_at(6),
                };
                proof {
                    assert(user.record_view() =~= rec@);
                }
                Ok(user)
            },
        }
    }
}

/// The fixed pattern set of the `user` element: one attribute-shaped
/// pattern per field, with the numeric `id` pattern excluding matches
/// whose full attribute name carries `uu`, so that the `id` inside
/// `uuid` is not misread as the numeric id.
pub open spec fn user_patterns_model() -> Seq<PatternModel> {
    seq![
        PatternModel {
            field_id: "id"@,
            attr_name: "id"@,
            excludes: "uu"@,
            value_type: ValueType::UInt,
        },
        PatternModel {
            field_id: "uuid"@,
            attr_name: "uuid"@,
            excludes: ""@,
            value_type: ValueType::Text,
        },
        PatternModel {
            field_id: "email"@,
            attr_name: "email"@,
            excludes: ""@,
            value_type: ValueType::Text,
        },
        PatternModel {
            field_id: "username"@,
            attr_name: "username"@,
            excludes: ""@,
            value_type: ValueType::Text,
        },
        PatternModel {
            field_id: "title"@,
            attr_name: "title"@,
            excludes: ""@,
            value_type: ValueType::Text,
        },
        PatternModel {
            field_id: "thumb"@,
            attr_name: "thumb"@,
            excludes: ""@,
            value_type: ValueType::Text,
        },
        PatternModel {
            field_id: "auth_token"@,
            attr_name: "authToken"@,
            excludes: ""@,
            value_type: ValueType::Text,
        },
    ]
}

/// Each of the fixed `user` patterns carries a non-empty word as its
/// attribute name, so the set always compiles.
proof fn lemma_user_patterns_compile()
    ensures
        forall|i: int| 0 <= i < user_patterns_model().len() ==> pattern_ok(
            #[trigger] user_patterns_model()[i],
        ),
{
    reveal_strlit("id");
    reveal_strlit("uuid");
    reveal_strlit("email");
    reveal_strlit("username");
    reveal_strlit("title");
    reveal_strlit("thumb");
    reveal_strlit("authToken");
    assert forall|j: int| 0 <= j < "id"@.len() implies is_word_char(#[trigger] "id"@[j]) by {
        assert("id"@[0] == 'i');
        assert("id"@[1] == 'd');
    }
    assert forall|j: int| 0 <= j < "uuid"@.len() implies is_word_char(#[trigger] "uuid"@[j]) by {
        assert("uuid"@[0] == 'u');
        assert("uuid"@[1] == 'u');
        assert("uuid"@[2] == 'i');
        assert("uuid"@[3] == 'd');
    }
    assert forall|j: int| 0 <= j < "email"@.len() implies is_word_char(#[trigger] "email"@[j]) by {
        assert("email"@[0] == 'e');
        assert("email"@[1] == 'm');
        assert("email"@[2] == 'a');
        assert("email"@[3] == 'i');
        assert("email"@[4] == 'l');
    }
    assert forall|j: int|
        0 <= j < "username"@.len() implies is_word_char(#[trigger] "username"@[j]) by {
        assert("username"@[0] == 'u');
        assert("username"@[1] == 's');
        assert("username"@[2] == 'e');
        assert("username"@[3] == 'r');
        assert("username"@[4] == 'n');
        assert("username"@[5] == 'a');
        assert("username"@[6] == 'm');
        assert("username"@[7] == 'e');
    }
    assert forall|j: int| 0 <= j < "title"@.len() implies is_word_char(#[trigger] "title"@[j]) by {
        assert("title"@[0] == 't');
        assert("title"@[1] == 'i');
        assert("title"@[2] == 't');
        assert("title"@[3] == 'l');
        assert("title"@[4] == 'e');
    }
    assert forall|j: int| 0 <= j < "thumb"@.len() implies is_word_char(#[trigger] "thumb"@[j]) by {
        assert("thumb"@[0] == 't');
        assert("thumb"@[1] == 'h');
        assert("thumb"@[2] == 'u');
        assert("thumb"@[3] == 'm');
        assert("thumb"@[4] == 'b');
    }
    assert forall|j: int|
        0 <= j < "authToken"@.len() implies is_word_char(#[trigger] "authToken"@[j]) by {
        assert("authToken"@[0] == 'a');
        assert("authToken"@[1] == 'u');
        assert("authToken"@[2] == 't');
        assert("authToken"@[3] == 'h');
        assert("authToken"@[4] == 'T');
        assert("authToken"@[5] == 'o');
        assert("authToken"@[6] == 'k');
        assert("authToken"@[7] == 'e');
        assert("authToken"@[8] == 'n');
    }
    assert(pattern_ok(user_patterns_model()[0]));
    assert(pattern_ok(user_patterns_model()[1]));
    assert(pattern_ok(user_patterns_model()[2]));
    assert(pattern_ok(user_patterns_model()[3]));
    assert(pattern_ok(user_patterns_model()[4]));
    assert(pattern_ok(user_patterns_model()[5]));
    assert(pattern_ok(user_patterns_model()[6]));
}

impl PlexUser {
    /// Compiles the fixed pattern set of the `user` element, for the
    /// pattern-matching extractor. Every declared pattern is a
    /// word-shaped attribute name, so compilation always succeeds.
    pub fn pattern_set() -> (r: Result<PatternSet, XmlStructError>)
        ensures
            r matches Ok(ps) && ps@ == user_patterns_model(),
    {
        proof {
            reveal_strlit("");
        }
        let mut patterns: Vec<Pattern> = Vec::new();
        patterns.push(Pattern::new("id", "id", "uu", ValueType::UInt));
        patterns.push(Pattern::new("uuid", "uuid", "", ValueType::Text));
        patterns.push(Pattern::new("email", "email", "", ValueType::Text));
        patterns.push(Pattern::new("username", "username", "", ValueType::Text));
        patterns.push(Pattern::new("title", "title", "", ValueType::Text));
        patterns.push(Pattern::new("thumb", "thumb", "", ValueType::Text));
        patterns.push(Pattern::new("auth_token", "authToken", "", ValueType::Text));
        let ghost pm = crate::patterns::patterns_model(patterns@);
        proof {
            assert(pm =~= user_patterns_model());
            lemma_user_patterns_compile();
        }
        PatternSet::new(patterns)
    }
}

} // verus!
