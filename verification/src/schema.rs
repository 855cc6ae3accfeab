//! The schema: a declarative description of how one XML element's
//! attributes map onto one record's fields.
//!
//! A schema is built once per record type and consumed by both extraction
//! strategies. It names the target element and, per field, the field's
//! identifier, the attribute to read it from (which defaults to the
//! identifier), and the value type to coerce to.

use vstd::prelude::*;
use vstd::string::StringExecFns;

verus! {

/// The type an attribute value is coerced to.
#[derive(Clone, Copy, Debug, PartialEq, Eq, Structural)]
pub enum ValueType {
    /// The unescaped attribute text, kept verbatim.
    Text,
    /// A base-10 unsigned integer parsed from the unescaped text.
    UInt,
}

/// One field's mapping rule within a schema.
#[derive(Clone, Debug)]
pub struct FieldSpec {
    /// The identifier of the record field being filled.
    pub field_id: String,
    /// The attribute name to read the value from.
    pub source_name: String,
    /// The type the value is coerced to.
    pub value_type: ValueType,
}

/// The mathematical shadow of a [`FieldSpec`].
pub struct FieldSpecModel {
    pub field_id: Seq<char>,
    pub source_name: Seq<char>,
    pub value_type: ValueType,
}

impl View for FieldSpec {
    type V = FieldSpecModel;

    open spec fn view(&self) -> FieldSpecModel {
        FieldSpecModel {
            field_id: self.field_id@,
            source_name: self.source_name@,
            value_type: self.value_type,
        }
    }
}

impl FieldSpec {
    /// A field read from an attribute of another name than its own.
    pub fn renamed(field_id: &str, source_name: &str, value_type: ValueType) -> (r: FieldSpec)
        ensures
            r@ == (FieldSpecModel { field_id: field_id@, source_name: source_name@, value_type }),
    {
        FieldSpec {
            field_id: String::from_str(field_id),
            source_name: String::from_str(source_name),
            value_type,
        }
    }

    /// A field read from the attribute of the same name.
    pub fn named(field_id: &str, value_type: ValueType) -> (r: FieldSpec)
        ensures
            r@ == (FieldSpecModel { field_id: field_id@, source_name: field_id@, value_type }),
    {
        FieldSpec {
            field_id: String::from_str(field_id),
            source_name: String::from_str(field_id),
            value_type,
        }
    }
}

/// The mathematical shadow of a [`Schema`].
pub struct SchemaModel {
    pub element_name: Seq<char>,
    pub fields: Seq<FieldSpecModel>,
}

impl SchemaModel {
    /// Field identifiers are unique within a schema.
    pub open spec fn wf(&self) -> bool {
        forall|i: int, j: int|
            0 <= i < j < self.fields.len() ==> self.fields[i].field_id != self.fields[j].field_id
    }
}

/// The mapping of one XML element's attributes onto one record's fields:
/// the element's tag name and an ordered table of field rules.
#[derive(Clone, Debug)]
pub struct Schema {
    element_name: String,
    fields: Vec<FieldSpec>,
}

impl View for Schema {
    type V = SchemaModel;

    closed spec fn view(&self) -> SchemaModel {
        SchemaModel {
            element_name: self.element_name@,
            fields: self.fields@.map_values(|f: FieldSpec| f@),
        }
    }
}

impl Schema {
    /// An empty schema for the element of the given tag name.
    pub fn new(element_name: &str) -> (r: Schema)
        ensures
            r@.element_name == element_name@,
            r@.fields == Seq::<FieldSpecModel>::empty(),
            r@.wf(),
    {
        let r = Schema { element_name: String::from_str(element_name), fields: Vec::new() };
        proof {
            assert(r@.fields =~= Seq::<FieldSpecModel>::empty());
        }
        r
    }

    /// The number of field rules.
    pub fn num_fields(&self) -> (r: usize)
        ensures
            r == self@.fields.len(),
    {
        self.fields.len()
    }

    /// The field rule at `i`.
    pub fn field(&self, i: usize) -> (r: &FieldSpec)
        requires
            i < self@.fields.len(),
        ensures
            r@ == self@.fields[i as int],
    {
        &self.fields[i]
    }

    /// The target element's tag name.
    pub fn element(&self) -> (r: &String)
        ensures
            r@ == self@.element_name,
    {
        &self.element_name
    }

    /// Whether some field rule already carries this identifier.
    pub fn has_field_id(&self, field_id: &String) -> (r: bool)
        ensures
            r == exists|i: int| 0 <= i < self@.fields.len() && self@.fields[i].field_id == field_id@,
    {
        let mut i: usize = 0;
        while i < self.fields.len()
            invariant
                i <= self@.fields.len(),
                forall|j: int| 0 <= j < i ==> self@.fields[j].field_id != field_id@,
            decreases self@.fields.len() - i,
        {
            if self.fields[i].field_id.eq(field_id) {
                proof {
                    assert(self@.fields[i as int].field_id == field_id@);
                }
                return true;
            }
            i = i + 1;
        }
        false
    }

    /// Appends a field rule, keeping identifiers unique: a rule whose
    /// identifier is already taken is rejected and the schema is left
    /// unchanged.
    pub fn add_field(&mut self, f: FieldSpec) -> (added: bool)
        requires
            old(self)@.wf(),
        ensures
            final(self)@.wf(),
            final(self)@.element_name == old(self)@.element_name,
            added == !exists|i: int|
                0 <= i < old(self)@.fields.len() && old(self)@.fields[i].field_id == f@.field_id,
            added ==> final(self)@.fields == old(self)@.fields.push(f@),
            !added ==> final(self)@.fields == old(self)@.fields,
    {
        if self.has_field_id(&f.field_id) {
            return false;
        }
        let ghost before = self@.fields;
        self.fields.push(f);
        proof {
            assert(self@.fields =~= before.push(f@));
        }
        true
    }
}

} // verus!
