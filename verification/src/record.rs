//! The record: the typed output value produced by one extraction call.
//!
//! A record carries one value per schema field, in schema order. Every
//! field starts at its type's default (empty text, zero) and is
//! overwritten only when its source attribute is found; a field left at
//! its default is valid absence, not an error.

use crate::schema::{FieldSpecModel, Schema, ValueType};
use vstd::prelude::*;

verus! {

/// One field's value.
#[derive(Clone, Debug)]
pub enum FieldValue {
    /// Unescaped attribute text, kept verbatim.
    Text(String),
    /// A parsed unsigned integer.
    UInt(u64),
}

/// The mathematical shadow of a [`FieldValue`].
pub enum FieldValueModel {
    Text(Seq<char>),
    UInt(u64),
}

impl View for FieldValue {
    type V = FieldValueModel;

    open spec fn view(&self) -> FieldValueModel {
        match self {
            FieldValue::Text(s) => FieldValueModel::Text(s@),
            FieldValue::UInt(n) => FieldValueModel::UInt(*n),
        }
    }
}

/// The default value of a field of the given type.
pub open spec fn default_value(t: ValueType) -> FieldValueModel {
    match t {
        ValueType::Text => FieldValueModel::Text(Seq::empty()),
        ValueType::UInt => FieldValueModel::UInt(0),
    }
}

/// The all-default record of a field table.
pub open spec fn default_record(fields: Seq<FieldSpecModel>) -> Seq<FieldValueModel> {
    fields.map_values(|f: FieldSpecModel| default_value(f.value_type))
}

/// The field values of a record, as their mathematical shadows.
pub open spec fn record_model(vs: Seq<FieldValue>) -> Seq<FieldValueModel> {
    vs.map_values(|v: FieldValue| v@)
}

/// The populated output of one extraction call: one value per schema
/// field, in schema order.
#[derive(Clone, Debug)]
pub struct Record {
    pub values: Vec<FieldValue>,
}

impl View for Record {
    type V = Seq<FieldValueModel>;

    open spec fn view(&self) -> Seq<FieldValueModel> {
        record_model(self.values@)
    }
}

impl Record {
    /// The all-default record for a schema.
    pub fn new_default(schema: &Schema) -> (r: Record)
        ensures
            r@ == default_record(schema@.fields),
    {
        let n = schema.num_fields();
        let mut values: Vec<FieldValue> = Vec::new();
        let mut i: usize = 0;
        while i < n
            invariant
                n == schema@.fields.len(),
                i <= n,
                record_model(values@) == default_record(schema@.fields).take(i as int),
            decreases n - i,
        {
            let v = match schema.field(i).value_type {
                ValueType::Text => FieldValue::Text(String::new()),
                ValueType::UInt => FieldValue::UInt(0),
            };
            proof {
                assert(v@ == default_value(schema@.fields[i as int].value_type));
                assert(default_record(schema@.fields)[i as int] == default_value(
                    schema@.fields[i as int].value_type,
                ));
            }
            let ghost before = values@;
            values.push(v);
            i = i + 1;
            proof {
                assert(values@ =~= before.push(v));
                assert(record_model(before).len() == before.len());
                assert forall|j: int| 0 <= j < i implies record_model(values@)[j] == default_record(
                    schema@.fields,
                ).take(i as int)[j] by {
                    assert(record_model(values@)[j] == values@[j]@);
                    if j < i - 1 {
                        assert(record_model(before)[j] == default_record(schema@.fields).take(
                            i - 1,
                        )[j]);
                    }
                }
                assert(record_model(values@) =~= default_record(schema@.fields).take(i as int));
            }
        }
        let r = Record { values };
        proof {
            assert(r@ =~= default_record(schema@.fields));
        }
        r
    }

    /// The number of field values.
    pub fn len(&self) -> (r: usize)
        ensures
            r == self@.len(),
    {
        self.values.len()
    }

    /// The value at `i`.
    pub fn value(&self, i: usize) -> (r: &FieldValue)
        requires
            i < self@.len(),
        ensures
            r@ == self@[i as int],
    {
        &self.values[i]
    }

    /// The integer value at `i`, which must hold one.
    pub fn uint_at(&self, i: usize) -> (r: u64)
        requires
            i < self@.len(),
            self@[i as int] is UInt,
        ensures
            r == self@[i as int]->UInt_0,
    {
        proof {
            assert(self@[i as int] == self.values@[i as int]@);
        }
        match &self.values[i] {
            FieldValue::UInt(n) => *n,
            FieldValue::Text(_) => 0,
        }
    }

    /// The text value at `i`, which must hold one.
    pub fn text_at(&self, i: usize) -> (r: String)
        requires
            i < self@.len(),
            self@[i as int] is Text,
        ensures
            r@ == self@[i as int]->Text_0,
    {
        proof {
            assert(self@[i as int] == self.values@[i as int]@);
        }
        match &self.values[i] {
            FieldValue::Text(s) => s.clone(),
            FieldValue::UInt(_) => String::new(),
        }
    }
}

} // verus!
