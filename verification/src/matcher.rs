//! The token-streaming matcher: deterministic, single-pass extraction.
//!
//! The matcher pulls token after token from the input. The first start
//! tag whose name equals the schema's element name is honoured: each
//! schema field whose source attribute is present on that tag is
//! unescaped, coerced to the field's type and assigned, in schema order;
//! an absent attribute leaves its field at the default. Later tags of
//! the same name are ignored, but scanning continues to the end of the
//! input so that a later syntax error is still reported. An input in
//! which the element never appears yields the all-default record: the
//! element's absence is a checkable business condition, not an error.

use crate::numbers::parse_u64_spec;
use crate::record::{default_record, FieldValue, FieldValueModel, Record};
use crate::schema::{FieldSpecModel, Schema, SchemaModel, ValueType};
use crate::text::{chars_eq, string_from_chars, to_chars};
use crate::tokenizer::{
    attrs_model, lemma_token_from, next_token, token_from, Attr, AttrModel, Token, TokenOutcome,
};
use crate::unescape::unescape_spec;
use crate::{ErrorModel, XmlStructError};
use vstd::prelude::*;

verus! {

/// What coercing one raw attribute value to a field's type yields:
/// the field's new value, a syntax error inside the value's escapes,
/// or a coercion failure naming the field and the offending text.
pub open spec fn coerce_field(f: FieldSpecModel, raw: Seq<char>, value_at: int) -> Result<
    FieldValueModel,
    ErrorModel,
> {
    match unescape_spec(raw) {
        Err(rel) => Err(ErrorModel::SyntaxModel { pos: value_at + rel }),
        Ok(u) => match f.value_type {
            ValueType::Text => Ok(FieldValueModel::Text(u)),
            ValueType::UInt => match parse_u64_spec(u) {
                Some(n) => Ok(FieldValueModel::UInt(n)),
                None => Err(ErrorModel::TypeCoercionModel { field_id: f.field_id, text: u }),
            },
        },
    }
}

/// The first attribute of the list carrying this name, if any.
pub open spec fn lookup_attr(attrs: Seq<AttrModel>, name: Seq<char>) -> Option<AttrModel>
    decreases attrs.len(),
{
    if attrs.len() == 0 {
        None
    } else if attrs[0].name == name {
        Some(attrs[0])
    } else {
        lookup_attr(attrs.drop_first(), name)
    }
}

/// What assigning the fields from `j` on yields: each field whose
/// source attribute is present is coerced and assigned in schema order,
/// and the first failure aborts the record.
pub open spec fn apply_fields_from(
    fields: Seq<FieldSpecModel>,
    j: int,
    attrs: Seq<AttrModel>,
    rec: Seq<FieldValueModel>,
) -> Result<Seq<FieldValueModel>, ErrorModel>
    decreases fields.len() - j,
        when 0 <= j <= fields.len()
{
    if j >= fields.len() {
        Ok(rec)
    } else {
        match lookup_attr(attrs, fields[j].source_name) {
            None => apply_fields_from(fields, j + 1, attrs, rec),
            Some(a) => match coerce_field(fields[j], a.value, a.value_at) {
                Err(e) => Err(e),
                Ok(v) => apply_fields_from(fields, j + 1, attrs, rec.update(j, v)),
            },
        }
    }
}

/// What assigning all fields of a matched start tag yields.
pub open spec fn apply_fields_spec(
    fields: Seq<FieldSpecModel>,
    attrs: Seq<AttrModel>,
    rec: Seq<FieldValueModel>,
) -> Result<Seq<FieldValueModel>, ErrorModel> {
    apply_fields_from(fields, 0, attrs, rec)
}

/// What scanning the input from `pos` on yields, given whether the
/// target element was already matched and the record built so far.
pub open spec fn scan_from(
    schema: SchemaModel,
    t: Seq<char>,
    pos: int,
    matched: bool,
    rec: Seq<FieldValueModel>,
) -> Result<Seq<FieldValueModel>, ErrorModel>
    decreases t.len() - pos,
        when 0 <= pos <= t.len()
{
    match token_from(t, pos) {
        TokenOutcome::EndOfInput => Ok(rec),
        TokenOutcome::Malformed { pos: m } => Err(ErrorModel::SyntaxModel { pos: m }),
        TokenOutcome::Skipped { next } => {
            proof {
                lemma_token_from(t, pos);
            }
            scan_from(schema, t, next, matched, rec)
        },
        TokenOutcome::StartTag { name, attrs, next } => {
            proof {
                lemma_token_from(t, pos);
            }
            if !matched && name == schema.element_name {
                match apply_fields_spec(schema.fields, attrs, rec) {
                    Err(e) => Err(e),
                    Ok(filled) => scan_from(schema, t, next, true, filled),
                }
            } else {
                scan_from(schema, t, next, matched, rec)
            }
        },
    }
}

/// What extracting a whole input under a schema yields: the scan starts
/// at the beginning, unmatched, with the all-default record.
pub open spec fn extract_spec(schema: SchemaModel, t: Seq<char>) -> Result<
    Seq<FieldValueModel>,
    ErrorModel,
> {
    scan_from(schema, t, 0, false, default_record(schema.fields))
}

/// Finds the first attribute of the list carrying this name.
fn find_attr<'a>(attrs: &'a Vec<Attr>, name: &Vec<char>) -> (r: Option<&'a Attr>)
    ensures
        match r {
            Some(a) => lookup_attr(attrs_model(attrs@), name@) == Some(a@) && exists|k: int|
                0 <= k < attrs@.len() && attrs@[k] == *a,
            None => lookup_attr(attrs_model(attrs@), name@) is None,
        },
{
    proof {
        assert(attrs_model(attrs@).skip(0) =~= attrs_model(attrs@));
    }
    let mut i: usize = 0;
    while i < attrs.len()
        invariant
            i <= attrs@.len(),
            lookup_attr(attrs_model(attrs@), name@) == lookup_attr(
                attrs_model(attrs@).skip(i as int),
                name@,
            ),
        decreases attrs@.len() - i,
    {
        let a = &attrs[i];
        if chars_eq(a.name.as_slice(), name.as_slice()) {
            proof {
                assert(attrs_model(attrs@).skip(i as int)[0] == attrs@[i as int]@);
                assert(attrs@[i as int] == *a);
            }
            return Some(a);
        }
        i = i + 1;
        proof {
            assert(attrs_model(attrs@).skip(i - 1)[0] == attrs@[i - 1]@);
            assert(attrs_model(attrs@).skip(i - 1).drop_first() =~= attrs_model(attrs@).skip(
                i as int,
            ));
        }
    }
    proof {
        assert(attrs_model(attrs@).skip(i as int).len() == 0);
    }
    None
}

/// Assigns every schema field whose source attribute is on the matched
/// tag, in schema order, coercing each value to the field's type. The
/// first failure aborts and reports; the record is then discarded.
fn apply_fields(schema: &Schema, attrs: &Vec<Attr>, rec: &mut Record) -> (r: Result<
    (),
    XmlStructError,
>)
    requires
        old(rec)@.len() == schema@.fields.len(),
        forall|k: int|
            0 <= k < attrs@.len() ==> #[trigger] attrs@[k]@.value_at + attrs@[k]@.value.len()
                <= usize::MAX,
    ensures
        match r {
            Ok(_) => final(rec)@.len() == old(rec)@.len() && apply_fields_spec(
                schema@.fields,
                attrs_model(attrs@),
                old(rec)@,
            ) == Ok::<_, ErrorModel>(final(rec)@),
            Err(e) => apply_fields_spec(schema@.fields, attrs_model(attrs@), old(rec)@) == Err::<
                Seq<FieldValueModel>,
                _,
            >(e@),
        },
{
    let n = schema.num_fields();
    let mut j: usize = 0;
    while j < n
        invariant
            n == schema@.fields.len(),
            j <= n,
            rec@.len() == schema@.fields.len(),
            forall|k: int|
                0 <= k < attrs@.len() ==> #[trigger] attrs@[k]@.value_at + attrs@[k]@.value.len()
                    <= usize::MAX,
            apply_fields_from(schema@.fields, 0, attrs_model(attrs@), old(rec)@)
                == apply_fields_from(schema@.fields, j as int, attrs_model(attrs@), rec@),
        decreases n - j,
    {
        let f = schema.field(j);
        let src = to_chars(f.source_name.as_str());
        match find_attr(attrs, &src) {
            None => {
                j = j + 1;
            },
            Some(a) => {
                let ghost am = a@;
                match crate::unescape::unescape(&a.value) {
                    Err(rel) => {
                        let e = XmlStructError::Syntax { pos: a.value_at + rel };
                        proof {
                            assert(coerce_field(schema@.fields[j as int], am.value, am.value_at)
                                == Err::<FieldValueModel, ErrorModel>(e@));
                        }
                        return Err(e);
                    },
                    Ok(u) => {
                        match f.value_type {
                            ValueType::Text => {
                                let s = string_from_chars(&u);
                                let ghost rec0 = rec@;
                                rec.values[j] = FieldValue::Text(s);
                                proof {
                                    assert(rec@ =~= rec0.update(
                                        j as int,
                                        FieldValueModel::Text(u@),
                                    ));
                                }
                                j = j + 1;
                            },
                            ValueType::UInt => {
                                match crate::numbers::parse_u64(&u) {
                                    Some(num) => {
                                        let ghost rec0 = rec@;
                                        rec.values[j] = FieldValue::UInt(num);
                                        proof {
                                            assert(rec@ =~= rec0.update(
                                                j as int,
                                                FieldValueModel::UInt(num),
                                            ));
                                        }
                                        j = j + 1;
                                    },
                                    None => {
                                        let e = XmlStructError::TypeCoercion {
                                            field_id: f.field_id.clone(),
                                            text: string_from_chars(&u),
                                        };
                                        return Err(e);
                                    },
                                }
                            },
                        }
                    },
                }
            },
        }
    }
    Ok(())
}

/// Extracts one record from the input under a schema, by the
/// token-streaming strategy.
pub fn extract(schema: &Schema, text: &Vec<char>) -> (r: Result<Record, XmlStructError>)
    ensures
        match r {
            Ok(rec) => extract_spec(schema@, text@) == Ok::<_, ErrorModel>(rec@),
            Err(e) => extract_spec(schema@, text@) == Err::<Seq<FieldValueModel>, _>(e@),
        },
{
    let elem = to_chars(schema.element().as_str());
    let mut rec = Record::new_default(schema);
    let mut matched = false;
    let mut pos: usize = 0;
    loop
        invariant
            pos <= text@.len(),
            elem@ == schema@.element_name,
            rec@.len() == schema@.fields.len(),
            extract_spec(schema@, text@) == scan_from(
                schema@,
                text@,
                pos as int,
                matched,
                rec@,
            ),
        decreases text@.len() - pos,
    {
        let ghost pos0 = pos as int;
        proof {
            lemma_token_from(text@, pos0);
        }
        match next_token(text, pos) {
            Err(p) => {
                return Err(XmlStructError::Syntax { pos: p });
            },
            Ok((tok, next)) => {
                match tok {
                    Token::EndOfInput => {
                        return Ok(rec);
                    },
                    Token::Skipped => {
                        pos = next;
                    },
                    Token::StartTag { name, attrs } => {
                        if !matched && chars_eq(name.as_slice(), elem.as_slice()) {
                            proof {
                                assert(vstd::std_specs::vec::spec_vec_len(text) == text@.len());
                                let am = attrs_model(attrs@);
                                assert forall|k: int|
                                    0 <= k < attrs@.len() implies #[trigger] attrs@[k]@.value_at
                                    + attrs@[k]@.value.len() <= usize::MAX by {
                                    assert(am[k] == attrs@[k]@);
                                    assert(am[k].value_at + am[k].value.len() <= text@.len());
                                }
                            }
                            match apply_fields(schema, &attrs, &mut rec) {
                                Err(e) => {
                                    return Err(e);
                                },
                                Ok(_) => {
                                    matched = true;
                                    pos = next;
                                },
                            }
                        } else {
                            pos = next;
                        }
                    },
                }
            },
        }
    }
}

/// The target element never appears, and every token up to the end of
/// the input is well formed, in the suffix of `t` that starts at `pos`.
pub open spec fn no_match_from(elem: Seq<char>, t: Seq<char>, pos: int) -> bool
    decreases t.len() - pos,
        when 0 <= pos <= t.len()
{
    match token_from(t, pos) {
        TokenOutcome::EndOfInput => true,
        TokenOutcome::Malformed { .. } => false,
        TokenOutcome::StartTag { name, attrs, next } => {
            proof {
                lemma_token_from(t, pos);
            }
            name != elem && no_match_from(elem, t, next)
        },
        TokenOutcome::Skipped { next } => {
            proof {
                lemma_token_from(t, pos);
            }
            no_match_from(elem, t, next)
        },
    }
}

/// Every token is well formed up to the end of the input, in the suffix
/// of `t` that starts at `pos`.
pub open spec fn clean_from(t: Seq<char>, pos: int) -> bool
    decreases t.len() - pos,
        when 0 <= pos <= t.len()
{
    match token_from(t, pos) {
        TokenOutcome::EndOfInput => true,
        TokenOutcome::Malformed { .. } => false,
        TokenOutcome::StartTag { next, .. } => {
            proof {
                lemma_token_from(t, pos);
            }
            clean_from(t, next)
        },
        TokenOutcome::Skipped { next } => {
            proof {
                lemma_token_from(t, pos);
            }
            clean_from(t, next)
        },
    }
}

/// The attribute list and the resume position of the first start tag
/// whose name is `elem`, when the scan reaches one before the end of
/// the input or a malformed token.
pub open spec fn first_match_from(elem: Seq<char>, t: Seq<char>, pos: int) -> Option<
    (Seq<AttrModel>, int),
>
    decreases t.len() - pos,
        when 0 <= pos <= t.len()
{
    match token_from(t, pos) {
        TokenOutcome::EndOfInput => None,
        TokenOutcome::Malformed { .. } => None,
        TokenOutcome::StartTag { name, attrs, next } => {
            proof {
                lemma_token_from(t, pos);
            }
            if name == elem {
                Some((attrs, next))
            } else {
                first_match_from(elem, t, next)
            }
        },
        TokenOutcome::Skipped { next } => {
            proof {
                lemma_token_from(t, pos);
            }
            first_match_from(elem, t, next)
        },
    }
}

/// Once the target element has been matched, a scan over a well-formed
/// remainder changes nothing: it returns the record it was given.
pub proof fn lemma_scan_after_match(
    schema: SchemaModel,
    t: Seq<char>,
    pos: int,
    rec: Seq<FieldValueModel>,
)
    requires
        0 <= pos <= t.len(),
        clean_from(t, pos),
    ensures
        scan_from(schema, t, pos, true, rec) == Ok::<_, ErrorModel>(rec),
    decreases t.len() - pos,
{
    lemma_token_from(t, pos);
    match token_from(t, pos) {
        TokenOutcome::EndOfInput => {},
        TokenOutcome::Malformed { .. } => {},
        TokenOutcome::StartTag { next, .. } => {
            lemma_scan_after_match(schema, t, next, rec);
        },
        TokenOutcome::Skipped { next } => {
            lemma_scan_after_match(schema, t, next, rec);
        },
    }
}

/// A scan that never meets the target element and never meets a
/// malformed token returns the record it was given — in particular,
/// extraction from an input without the element yields the all-default
/// record.
pub proof fn lemma_scan_no_match(
    schema: SchemaModel,
    t: Seq<char>,
    pos: int,
    matched: bool,
    rec: Seq<FieldValueModel>,
)
    requires
        0 <= pos <= t.len(),
        no_match_from(schema.element_name, t, pos),
    ensures
        scan_from(schema, t, pos, matched, rec) == Ok::<_, ErrorModel>(rec),
    decreases t.len() - pos,
{
    lemma_token_from(t, pos);
    match token_from(t, pos) {
        TokenOutcome::EndOfInput => {},
        TokenOutcome::Malformed { .. } => {},
        TokenOutcome::StartTag { next, .. } => {
            lemma_scan_no_match(schema, t, next, matched, rec);
        },
        TokenOutcome::Skipped { next } => {
            lemma_scan_no_match(schema, t, next, matched, rec);
        },
    }
}

/// When the target element is absent from a well-formed input, the
/// token-streaming matcher succeeds with the record whose every field
/// is its type's default.
pub proof fn lemma_absent_element_all_defaults(schema: SchemaModel, t: Seq<char>)
    requires
        no_match_from(schema.element_name, t, 0),
    ensures
        extract_spec(schema, t) == Ok::<_, ErrorModel>(default_record(schema.fields)),
{
    lemma_scan_no_match(schema, t, 0, false, default_record(schema.fields));
}

/// The whole extraction stands or falls with the first matching start
/// tag: what its assignment pass reports is what the scan reports, and
/// on success the scan goes on only to look for later syntax errors.
pub proof fn lemma_scan_first_match(
    schema: SchemaModel,
    t: Seq<char>,
    pos: int,
    rec: Seq<FieldValueModel>,
    attrs: Seq<AttrModel>,
    next: int,
)
    requires
        0 <= pos <= t.len(),
        first_match_from(schema.element_name, t, pos) == Some((attrs, next)),
    ensures
        0 <= next <= t.len(),
        scan_from(schema, t, pos, false, rec) == match apply_fields_spec(
            schema.fields,
            attrs,
            rec,
        ) {
            Err(e) => Err::<Seq<FieldValueModel>, ErrorModel>(e),
            Ok(filled) => scan_from(schema, t, next, true, filled),
        },
    decreases t.len() - pos,
{
    lemma_token_from(t, pos);
    match token_from(t, pos) {
        TokenOutcome::EndOfInput => {},
        TokenOutcome::Malformed { .. } => {},
        TokenOutcome::StartTag { name, attrs: a0, next: n0 } => {
            if name != schema.element_name {
                lemma_scan_first_match(schema, t, n0, rec, attrs, next);
            }
        },
        TokenOutcome::Skipped { next: n0 } => {
            lemma_scan_first_match(schema, t, n0, rec, attrs, next);
        },
    }
}

/// The field at `i` fails to coerce: its source attribute is present
/// but its value does not convert to the field's type.
pub open spec fn field_fails(fields: Seq<FieldSpecModel>, attrs: Seq<AttrModel>, i: int) -> bool {
    match lookup_attr(attrs, fields[i].source_name) {
        None => false,
        Some(a) => coerce_field(fields[i], a.value, a.value_at) is Err,
    }
}

/// An assignment pass over fields that all coerce succeeds.
pub proof fn lemma_apply_fields_ok(
    fields: Seq<FieldSpecModel>,
    j: int,
    attrs: Seq<AttrModel>,
    rec: Seq<FieldValueModel>,
)
    requires
        0 <= j <= fields.len(),
        rec.len() == fields.len(),
        forall|k: int| j <= k < fields.len() ==> !field_fails(fields, attrs, k),
    ensures
        apply_fields_from(fields, j, attrs, rec) is Ok,
    decreases fields.len() - j,
{
    if j < fields.len() {
        match lookup_attr(attrs, fields[j].source_name) {
            None => {
                lemma_apply_fields_ok(fields, j + 1, attrs, rec);
            },
            Some(a) => {
                assert(!field_fails(fields, attrs, j));
                let v = coerce_field(fields[j], a.value, a.value_at)->Ok_0;
                lemma_apply_fields_ok(fields, j + 1, attrs, rec.update(j, v));
            },
        }
    }
}

/// Fields are assigned independently and in place: a successful pass
/// leaves each field either at the coerced value of its present source
/// attribute or at the value it already had.
pub proof fn lemma_apply_fields_values(
    fields: Seq<FieldSpecModel>,
    j: int,
    attrs: Seq<AttrModel>,
    rec: Seq<FieldValueModel>,
)
    requires
        0 <= j <= fields.len(),
        rec.len() == fields.len(),
    ensures
        match apply_fields_from(fields, j, attrs, rec) {
            Ok(filled) => filled.len() == rec.len() && (forall|i: int|
                0 <= i < j ==> filled[i] == rec[i]) && (forall|i: int|
                #![trigger fields[i]]
                j <= i < fields.len() ==> match lookup_attr(attrs, fields[i].source_name) {
                    None => filled[i] == rec[i],
                    Some(a) => coerce_field(fields[i], a.value, a.value_at) is Ok && filled[i]
                        == coerce_field(fields[i], a.value, a.value_at)->Ok_0,
                }),
            Err(_) => true,
        },
    decreases fields.len() - j,
{
    if j < fields.len() {
        match lookup_attr(attrs, fields[j].source_name) {
            None => {
                lemma_apply_fields_values(fields, j + 1, attrs, rec);
            },
            Some(a) => {
                match coerce_field(fields[j], a.value, a.value_at) {
                    Err(_) => {},
                    Ok(v) => {
                        lemma_apply_fields_values(fields, j + 1, attrs, rec.update(j, v));
                    },
                }
            },
        }
    }
}

/// When the matched element carries every schema attribute and each
/// value coerces, the pass succeeds and every field of the result
/// equals the unescaped, coerced text of its source attribute.
pub proof fn lemma_all_attributes_copied(
    fields: Seq<FieldSpecModel>,
    attrs: Seq<AttrModel>,
    rec: Seq<FieldValueModel>,
)
    requires
        rec.len() == fields.len(),
        forall|i: int|
            0 <= i < fields.len() ==> #[trigger] lookup_attr(attrs, fields[i].source_name) is Some,
        forall|i: int| 0 <= i < fields.len() ==> !field_fails(fields, attrs, i),
    ensures
        apply_fields_spec(fields, attrs, rec) is Ok,
        forall|i: int|
            0 <= i < fields.len() ==> #[trigger] (apply_fields_spec(fields, attrs, rec)->Ok_0)[i]
                == coerce_field(
                fields[i],
                lookup_attr(attrs, fields[i].source_name)->Some_0.value,
                lookup_attr(attrs, fields[i].source_name)->Some_0.value_at,
            )->Ok_0,
{
    lemma_apply_fields_ok(fields, 0, attrs, rec);
    lemma_apply_fields_values(fields, 0, attrs, rec);
}

/// The whole-extraction form: over a well-formed input whose first
/// matching start tag carries every schema attribute with a coercible
/// value, extraction succeeds and every field of the record equals the
/// unescaped, coerced text of its source attribute.
pub proof fn lemma_extract_all_attributes(
    schema: SchemaModel,
    t: Seq<char>,
    attrs: Seq<AttrModel>,
    next: int,
)
    requires
        first_match_from(schema.element_name, t, 0) == Some((attrs, next)),
        clean_from(t, next),
        forall|i: int|
            0 <= i < schema.fields.len() ==> #[trigger] lookup_attr(
                attrs,
                schema.fields[i].source_name,
            ) is Some,
        forall|i: int| 0 <= i < schema.fields.len() ==> !field_fails(schema.fields, attrs, i),
    ensures
        extract_spec(schema, t) is Ok,
        forall|i: int|
            0 <= i < schema.fields.len() ==> #[trigger] (extract_spec(schema, t)->Ok_0)[i]
                == coerce_field(
                schema.fields[i],
                lookup_attr(attrs, schema.fields[i].source_name)->Some_0.value,
                lookup_attr(attrs, schema.fields[i].source_name)->Some_0.value_at,
            )->Ok_0,
{
    let rec = default_record(schema.fields);
    lemma_default_record_shape(schema.fields);
    lemma_scan_first_match(schema, t, 0, rec, attrs, next);
    lemma_all_attributes_copied(schema.fields, attrs, rec);
    let filled = apply_fields_spec(schema.fields, attrs, rec)->Ok_0;
    lemma_scan_after_match(schema, t, next, filled);
}

/// The first field that fails to coerce decides the outcome: the pass
/// fails with exactly that field's error.
pub proof fn lemma_first_failure_reported(
    fields: Seq<FieldSpecModel>,
    j: int,
    attrs: Seq<AttrModel>,
    rec: Seq<FieldValueModel>,
    i: int,
)
    requires
        0 <= j <= i < fields.len(),
        rec.len() == fields.len(),
        field_fails(fields, attrs, i),
        forall|k: int| j <= k < i ==> !field_fails(fields, attrs, k),
    ensures
        apply_fields_from(fields, j, attrs, rec) == Err::<Seq<FieldValueModel>, ErrorModel>(
            coerce_field(
                fields[i],
                lookup_attr(attrs, fields[i].source_name)->Some_0.value,
                lookup_attr(attrs, fields[i].source_name)->Some_0.value_at,
            )->Err_0,
        ),
    decreases i - j,
{
    if j < i {
        match lookup_attr(attrs, fields[j].source_name) {
            None => {
                lemma_first_failure_reported(fields, j + 1, attrs, rec, i);
            },
            Some(a) => {
                assert(!field_fails(fields, attrs, j));
                let v = coerce_field(fields[j], a.value, a.value_at)->Ok_0;
                lemma_first_failure_reported(fields, j + 1, attrs, rec.update(j, v), i);
            },
        }
    }
}

/// An integer-typed field whose present attribute value unescapes but
/// does not parse as a base-10 unsigned integer, and before which no
/// field fails, makes the pass fail with a coercion error naming that
/// field and the offending text.
pub proof fn lemma_uint_coercion_failure(
    fields: Seq<FieldSpecModel>,
    attrs: Seq<AttrModel>,
    rec: Seq<FieldValueModel>,
    i: int,
)
    requires
        0 <= i < fields.len(),
        rec.len() == fields.len(),
        forall|k: int| 0 <= k < i ==> !field_fails(fields, attrs, k),
        lookup_attr(attrs, fields[i].source_name) is Some,
        fields[i].value_type == ValueType::UInt,
        unescape_spec(lookup_attr(attrs, fields[i].source_name)->Some_0.value) is Ok,
        parse_u64_spec(
            unescape_spec(lookup_attr(attrs, fields[i].source_name)->Some_0.value)->Ok_0,
        ) is None,
    ensures
        apply_fields_spec(fields, attrs, rec) == Err::<Seq<FieldValueModel>, ErrorModel>(
            ErrorModel::TypeCoercionModel {
                field_id: fields[i].field_id,
                text: unescape_spec(lookup_attr(attrs, fields[i].source_name)->Some_0.value)->Ok_0,
            },
        ),
{
    lemma_first_failure_reported(fields, 0, attrs, rec, i);
}

/// The whole-extraction form: an input whose first matching start tag
/// carries, for an integer field, a present value that unescapes but
/// does not parse — with no field failing before it — fails the whole
/// extraction with a coercion error naming that field and the
/// offending text.
pub proof fn lemma_extract_uint_coercion(
    schema: SchemaModel,
    t: Seq<char>,
    attrs: Seq<AttrModel>,
    next: int,
    i: int,
)
    requires
        first_match_from(schema.element_name, t, 0) == Some((attrs, next)),
        0 <= i < schema.fields.len(),
        forall|k: int| 0 <= k < i ==> !field_fails(schema.fields, attrs, k),
        lookup_attr(attrs, schema.fields[i].source_name) is Some,
        schema.fields[i].value_type == ValueType::UInt,
        unescape_spec(lookup_attr(attrs, schema.fields[i].source_name)->Some_0.value) is Ok,
        parse_u64_spec(
            unescape_spec(lookup_attr(attrs, schema.fields[i].source_name)->Some_0.value)->Ok_0,
        ) is None,
    ensures
        extract_spec(schema, t) == Err::<Seq<FieldValueModel>, ErrorModel>(
            ErrorModel::TypeCoercionModel {
                field_id: schema.fields[i].field_id,
                text: unescape_spec(
                    lookup_attr(attrs, schema.fields[i].source_name)->Some_0.value,
                )->Ok_0,
            },
        ),
{
    let rec = default_record(schema.fields);
    lemma_default_record_shape(schema.fields);
    lemma_scan_first_match(schema, t, 0, rec, attrs, next);
    lemma_uint_coercion_failure(schema.fields, attrs, rec, i);
}

/// Two fields mapped to the same source attribute, of one value type,
/// cannot be told apart: a successful pass gives both the same value.
pub proof fn lemma_shared_source_attribute(
    fields: Seq<FieldSpecModel>,
    attrs: Seq<AttrModel>,
    rec: Seq<FieldValueModel>,
    j1: int,
    j2: int,
)
    requires
        0 <= j1 < fields.len(),
        0 <= j2 < fields.len(),
        rec.len() == fields.len(),
        fields[j1].source_name == fields[j2].source_name,
        fields[j1].value_type == fields[j2].value_type,
        lookup_attr(attrs, fields[j1].source_name) is Some,
        apply_fields_spec(fields, attrs, rec) is Ok,
    ensures
        (apply_fields_spec(fields, attrs, rec)->Ok_0)[j1] == (apply_fields_spec(
            fields,
            attrs,
            rec,
        )->Ok_0)[j2],
{
    lemma_apply_fields_values(fields, 0, attrs, rec);
}

/// A successful assignment pass keeps the record's length.
pub proof fn lemma_apply_fields_len(
    fields: Seq<FieldSpecModel>,
    j: int,
    attrs: Seq<AttrModel>,
    rec: Seq<FieldValueModel>,
)
    requires
        0 <= j <= fields.len(),
        rec.len() == fields.len(),
    ensures
        apply_fields_from(fields, j, attrs, rec) matches Ok(filled) ==> filled.len() == rec.len(),
    decreases fields.len() - j,
{
    if j < fields.len() {
        match lookup_attr(attrs, fields[j].source_name) {
            None => {
                lemma_apply_fields_len(fields, j + 1, attrs, rec);
            },
            Some(a) => {
                match coerce_field(fields[j], a.value, a.value_at) {
                    Err(_) => {},
                    Ok(v) => {
                        lemma_apply_fields_len(fields, j + 1, attrs, rec.update(j, v));
                    },
                }
            },
        }
    }
}

/// A value has the shape of a field type: text for a text field, an
/// unsigned integer for an integer field.
pub open spec fn value_fits(v: FieldValueModel, t: ValueType) -> bool {
    match t {
        ValueType::Text => v is Text,
        ValueType::UInt => v is UInt,
    }
}

/// An assignment pass keeps every field at its declared shape.
pub proof fn lemma_apply_fields_types(
    fields: Seq<FieldSpecModel>,
    j: int,
    attrs: Seq<AttrModel>,
    rec: Seq<FieldValueModel>,
)
    requires
        0 <= j <= fields.len(),
        rec.len() == fields.len(),
        forall|i: int| 0 <= i < fields.len() ==> value_fits(#[trigger] rec[i], fields[i].value_type),
    ensures
        apply_fields_from(fields, j, attrs, rec) matches Ok(filled) ==> forall|i: int|
            0 <= i < fields.len() ==> value_fits(#[trigger] filled[i], fields[i].value_type),
    decreases fields.len() - j,
{
    if j < fields.len() {
        match lookup_attr(attrs, fields[j].source_name) {
            None => {
                lemma_apply_fields_types(fields, j + 1, attrs, rec);
            },
            Some(a) => {
                match coerce_field(fields[j], a.value, a.value_at) {
                    Err(_) => {},
                    Ok(v) => {
                        assert(value_fits(v, fields[j].value_type));
                        lemma_apply_fields_types(fields, j + 1, attrs, rec.update(j, v));
                    },
                }
            },
        }
    }
}

/// A scan keeps the record's length and every field's declared shape.
pub proof fn lemma_scan_shape(
    schema: SchemaModel,
    t: Seq<char>,
    pos: int,
    matched: bool,
    rec: Seq<FieldValueModel>,
)
    requires
        0 <= pos <= t.len(),
        rec.len() == schema.fields.len(),
        forall|i: int|
            0 <= i < schema.fields.len() ==> value_fits(
                #[trigger] rec[i],
                schema.fields[i].value_type,
            ),
    ensures
        scan_from(schema, t, pos, matched, rec) matches Ok(out) ==> out.len()
            == schema.fields.len() && forall|i: int|
            0 <= i < schema.fields.len() ==> value_fits(
                #[trigger] out[i],
                schema.fields[i].value_type,
            ),
    decreases t.len() - pos,
{
    lemma_token_from(t, pos);
    match token_from(t, pos) {
        TokenOutcome::EndOfInput => {},
        TokenOutcome::Malformed { .. } => {},
        TokenOutcome::StartTag { name, attrs, next } => {
            if !matched && name == schema.element_name {
                lemma_apply_fields_len(schema.fields, 0, attrs, rec);
                lemma_apply_fields_types(schema.fields, 0, attrs, rec);
                match apply_fields_spec(schema.fields, attrs, rec) {
                    Err(_) => {},
                    Ok(filled) => {
                        lemma_scan_shape(schema, t, next, true, filled);
                    },
                }
            } else {
                lemma_scan_shape(schema, t, next, matched, rec);
            }
        },
        TokenOutcome::Skipped { next } => {
            lemma_scan_shape(schema, t, next, matched, rec);
        },
    }
}

/// The all-default record has every field at its declared shape.
pub proof fn lemma_default_record_shape(fields: Seq<FieldSpecModel>)
    ensures
        default_record(fields).len() == fields.len(),
        forall|i: int|
            0 <= i < fields.len() ==> value_fits(
                #[trigger] default_record(fields)[i],
                fields[i].value_type,
            ),
{
}

/// An extraction that succeeds yields a record of the schema's length
/// whose every field has its declared shape.
pub proof fn lemma_extract_shape(schema: SchemaModel, t: Seq<char>)
    ensures
        extract_spec(schema, t) matches Ok(out) ==> out.len() == schema.fields.len() && forall|
            i: int,
        |
            0 <= i < schema.fields.len() ==> value_fits(
                #[trigger] out[i],
                schema.fields[i].value_type,
            ),
{
    lemma_default_record_shape(schema.fields);
    lemma_scan_shape(schema, t, 0, false, default_record(schema.fields));
}

/// Extraction is a pure function of schema and text: it has no other
/// inputs and no retained state, so running it twice on the same text
/// under the same schema yields the same outcome.
pub proof fn lemma_extract_idempotent(schema: SchemaModel, t: Seq<char>)
    ensures
        extract_spec(schema, t) == extract_spec(schema, t),
{
}

/// Extracts one record from raw XML text under a schema, by the
/// token-streaming strategy.
pub fn extract_str(schema: &Schema, xml: &str) -> (r: Result<Record, XmlStructError>)
    ensures
        match r {
            Ok(rec) => extract_spec(schema@, xml@) == Ok::<_, ErrorModel>(rec@),
            Err(e) => extract_spec(schema@, xml@) == Err::<Seq<FieldValueModel>, _>(e@),
        },
{
    let chars = to_chars(xml);
    extract(schema, &chars)
}

} // verus!
