//! The pattern-matching extractor: a best-effort alternative to the
//! token-streaming matcher.
//!
//! Instead of tokenizing, it runs a fixed set of attribute-shaped text
//! patterns over the whole document. A pattern names an attribute; a
//! match is a `name="value"` shaped substring, and a match is assigned
//! to the pattern's field by containment checks on the full attribute
//! name around it — a pattern may exclude matches whose full name
//! contains a marker substring, which keeps a short name such as `id`
//! from being misread inside a longer one such as `uuid`. The first
//! valid match of each pattern wins; values are quote-stripped and
//! trimmed, not unescaped. Everything is best effort and silently
//! skipped on a non-match, except a numeric coercion failure, which
//! aborts the whole extraction. The extractor may misattribute or miss
//! fields the token-streaming matcher would extract; it trades those
//! guarantees for throughput.

use crate::numbers::{parse_u64, parse_u64_spec};
use crate::record::{default_value, record_model, FieldValue, FieldValueModel, Record};
use crate::schema::ValueType;
use crate::text::{copy_range, find_char, find_from, lemma_find_from, string_from_chars, to_chars};
use crate::tokenizer::{is_space, skip_ws, skip_ws_from};
use crate::{ErrorModel, XmlStructError};
use vstd::prelude::*;
use vstd::string::StringExecFns;

verus! {

/// A character that can stand in an attribute name.
pub open spec fn is_word_char(c: char) -> bool {
    ('a' <= c && c <= 'z') || ('A' <= c && c <= 'Z') || ('0' <= c && c <= '9') || c == '_'
}

/// One compiled pattern's mathematical shadow.
pub struct PatternModel {
    pub field_id: Seq<char>,
    pub attr_name: Seq<char>,
    pub excludes: Seq<char>,
    pub value_type: ValueType,
}

/// A pattern compiles when its attribute name is a non-empty word.
pub open spec fn pattern_ok(p: PatternModel) -> bool {
    p.attr_name.len() > 0 && forall|j: int| 0 <= j < p.attr_name.len() ==> is_word_char(
        #[trigger] p.attr_name[j],
    )
}

/// `sub` occurs somewhere in `s`.
pub open spec fn contains_seq(s: Seq<char>, sub: Seq<char>) -> bool {
    exists|k: int| 0 <= k && k + sub.len() <= s.len() && #[trigger] s.subrange(k, k + sub.len())
        == sub
}

/// The pattern's attribute name stands at `i`, followed by `="`.
pub open spec fn occurrence_at(t: Seq<char>, name: Seq<char>, i: int) -> bool {
    0 <= i && i + name.len() + 2 <= t.len() && t.subrange(i, i + name.len()) == name && t[i
        + name.len()] == '=' && t[i + name.len() + 1] == '"'
}

/// The start of the maximal word run that ends at `i`: how far the full
/// attribute name around a match extends to the left.
pub open spec fn run_start(t: Seq<char>, i: int) -> int
    decreases i,
        when 0 <= i <= t.len()
{
    if i == 0 {
        0
    } else if is_word_char(t[i - 1]) {
        run_start(t, i - 1)
    } else {
        i
    }
}

/// `run_start` stays within bounds.
pub proof fn lemma_run_start(t: Seq<char>, i: int)
    requires
        0 <= i <= t.len(),
    ensures
        0 <= run_start(t, i) <= i,
    decreases i,
{
    if i > 0 && is_word_char(t[i - 1]) {
        lemma_run_start(t, i - 1);
    }
}

/// The full attribute name around a match at `i`: the maximal word run
/// ending where the pattern's name ends.
pub open spec fn full_name(t: Seq<char>, name: Seq<char>, i: int) -> Seq<char> {
    t.subrange(run_start(t, i), i + name.len())
}

/// A match at `i` the pattern accepts: the attribute shape is there,
/// its value has a closing quote, and the full attribute name does not
/// contain the pattern's exclusion marker.
pub open spec fn valid_occurrence(t: Seq<char>, p: PatternModel, i: int) -> bool {
    occurrence_at(t, p.attr_name, i) && find_from(t, i + p.attr_name.len() + 2, '"') < t.len() && (
    p.excludes.len() == 0 || !contains_seq(full_name(t, p.attr_name, i), p.excludes))
}

/// The first match at or after `i` that the pattern accepts.
pub open spec fn find_occ_from(t: Seq<char>, p: PatternModel, i: int) -> Option<int>
    decreases t.len() - i,
        when 0 <= i <= t.len()
{
    if i >= t.len() {
        None
    } else if valid_occurrence(t, p, i) {
        Some(i)
    } else {
        find_occ_from(t, p, i + 1)
    }
}

/// The raw, quote-stripped value of the match at `i`: the characters
/// between the opening quote and the next one.
pub open spec fn raw_value(t: Seq<char>, name: Seq<char>, i: int) -> Seq<char> {
    t.subrange(i + name.len() + 2, find_from(t, i + name.len() + 2, '"'))
}

/// The index past the trailing whitespace of `s`.
pub open spec fn trim_end_idx(s: Seq<char>) -> int
    decreases s.len(),
{
    if s.len() == 0 {
        0
    } else if is_space(s.last()) {
        trim_end_idx(s.drop_last())
    } else {
        s.len() as int
    }
}

/// `trim_end_idx` stays within bounds.
pub proof fn lemma_trim_end_idx(s: Seq<char>)
    ensures
        0 <= trim_end_idx(s) <= s.len(),
    decreases s.len(),
{
    if s.len() > 0 && is_space(s.last()) {
        lemma_trim_end_idx(s.drop_last());
    }
}

/// `s` with its leading and trailing whitespace stripped.
pub open spec fn trim_spec(s: Seq<char>) -> Seq<char> {
    let b = skip_ws_from(s, 0);
    let e = trim_end_idx(s);
    if b < e {
        s.subrange(b, e)
    } else {
        Seq::empty()
    }
}

/// What one pattern contributes: the trimmed value of its first valid
/// match, or nothing.
pub open spec fn pattern_value(t: Seq<char>, p: PatternModel) -> Option<Seq<char>> {
    match find_occ_from(t, p, 0) {
        None => None,
        Some(i) => Some(trim_spec(raw_value(t, p.attr_name, i))),
    }
}

/// What running the patterns from `j` on over the whole text yields:
/// each pattern's first valid match fills its field, a numeric
/// coercion failure aborts, and a pattern without a match leaves its
/// field as it was.
pub open spec fn pattern_extract_from(
    ps: Seq<PatternModel>,
    j: int,
    t: Seq<char>,
    rec: Seq<FieldValueModel>,
) -> Result<Seq<FieldValueModel>, ErrorModel>
    decreases ps.len() - j,
        when 0 <= j <= ps.len()
{
    if j >= ps.len() {
        Ok(rec)
    } else {
        match pattern_value(t, ps[j]) {
            None => pattern_extract_from(ps, j + 1, t, rec),
            Some(v) => match ps[j].value_type {
                ValueType::Text => pattern_extract_from(
                    ps,
                    j + 1,
                    t,
                    rec.update(j, FieldValueModel::Text(v)),
                ),
                ValueType::UInt => match parse_u64_spec(v) {
                    Some(n) => pattern_extract_from(
                        ps,
                        j + 1,
                        t,
                        rec.update(j, FieldValueModel::UInt(n)),
                    ),
                    None => Err(ErrorModel::TypeCoercionModel { field_id: ps[j].field_id, text: v }),
                },
            },
        }
    }
}

/// The all-default record of a pattern set.
pub open spec fn pattern_defaults(ps: Seq<PatternModel>) -> Seq<FieldValueModel> {
    ps.map_values(|p: PatternModel| default_value(p.value_type))
}

/// What extracting a whole text with a pattern set yields.
pub open spec fn pattern_extract_spec(ps: Seq<PatternModel>, t: Seq<char>) -> Result<
    Seq<FieldValueModel>,
    ErrorModel,
> {
    pattern_extract_from(ps, 0, t, pattern_defaults(ps))
}

/// The pattern at `j` fails: its value is present but does not parse
/// as the unsigned integer its field asks for.
pub open spec fn pattern_fails(ps: Seq<PatternModel>, t: Seq<char>, j: int) -> bool {
    match pattern_value(t, ps[j]) {
        None => false,
        Some(v) => ps[j].value_type == ValueType::UInt && parse_u64_spec(v) is None,
    }
}

/// The first pattern that fails decides the outcome: the extraction
/// aborts with a coercion error naming that pattern's field and the
/// offending text.
pub proof fn lemma_pattern_coercion_failure(
    ps: Seq<PatternModel>,
    j: int,
    t: Seq<char>,
    rec: Seq<FieldValueModel>,
    i: int,
)
    requires
        0 <= j <= i < ps.len(),
        pattern_fails(ps, t, i),
        forall|k: int| j <= k < i ==> !pattern_fails(ps, t, k),
    ensures
        pattern_extract_from(ps, j, t, rec) == Err::<Seq<FieldValueModel>, ErrorModel>(
            ErrorModel::TypeCoercionModel {
                field_id: ps[i].field_id,
                text: pattern_value(t, ps[i])->Some_0,
            },
        ),
    decreases i - j,
{
    if j < i {
        assert(!pattern_fails(ps, t, j));
        match pattern_value(t, ps[j]) {
            None => {
                lemma_pattern_coercion_failure(ps, j + 1, t, rec, i);
            },
            Some(v) => {
                match ps[j].value_type {
                    ValueType::Text => {
                        lemma_pattern_coercion_failure(
                            ps,
                            j + 1,
                            t,
                            rec.update(j, FieldValueModel::Text(v)),
                            i,
                        );
                    },
                    ValueType::UInt => {
                        let n = parse_u64_spec(v)->Some_0;
                        lemma_pattern_coercion_failure(
                            ps,
                            j + 1,
                            t,
                            rec.update(j, FieldValueModel::UInt(n)),
                            i,
                        );
                    },
                }
            },
        }
    }
}

/// The whole-extraction form: an input on which the first failing
/// pattern is a numeric one fails with that pattern's coercion error.
pub proof fn lemma_pattern_first_failure(ps: Seq<PatternModel>, t: Seq<char>, i: int)
    requires
        0 <= i < ps.len(),
        pattern_fails(ps, t, i),
        forall|k: int| 0 <= k < i ==> !pattern_fails(ps, t, k),
    ensures
        pattern_extract_spec(ps, t) == Err::<Seq<FieldValueModel>, ErrorModel>(
            ErrorModel::TypeCoercionModel {
                field_id: ps[i].field_id,
                text: pattern_value(t, ps[i])->Some_0,
            },
        ),
{
    lemma_pattern_coercion_failure(ps, 0, t, pattern_defaults(ps), i);
}

/// Pattern extraction is a pure function of pattern set and text: it
/// has no other inputs and no retained state, so running it twice on
/// the same text with the same set yields the same outcome.
pub proof fn lemma_pattern_extract_idempotent(ps: Seq<PatternModel>, t: Seq<char>)
    ensures
        pattern_extract_spec(ps, t) == pattern_extract_spec(ps, t),
{
}

/// One text pattern: the attribute name it searches for, the field it
/// fills, an optional exclusion marker for the disambiguation check,
/// and the type the value is coerced to.
#[derive(Debug)]
pub struct Pattern {
    pub field_id: String,
    pub attr_name: Vec<char>,
    pub excludes: Vec<char>,
    pub value_type: ValueType,
}

impl View for Pattern {
    type V = PatternModel;

    open spec fn view(&self) -> PatternModel {
        PatternModel {
            field_id: self.field_id@,
            attr_name: self.attr_name@,
            excludes: self.excludes@,
            value_type: self.value_type,
        }
    }
}

/// The patterns of a sequence of them, as their mathematical shadows.
pub open spec fn patterns_model(s: Seq<Pattern>) -> Seq<PatternModel> {
    s.map_values(|p: Pattern| p@)
}

impl Pattern {
    /// A pattern for one field: matches of `attr_name` whose full
    /// attribute name does not contain `excludes` (give an empty marker
    /// to exclude nothing) fill the field `field_id`, coerced to
    /// `value_type`.
    pub fn new(field_id: &str, attr_name: &str, excludes: &str, value_type: ValueType) -> (r:
        Pattern)
        ensures
            r@ == (PatternModel {
                field_id: field_id@,
                attr_name: attr_name@,
                excludes: excludes@,
                value_type,
            }),
    {
        Pattern {
            field_id: String::from_str(field_id),
            attr_name: to_chars(attr_name),
            excludes: to_chars(excludes),
            value_type,
        }
    }
}

/// Decides whether a pattern's attribute name is a non-empty word.
fn word_ok(name: &Vec<char>) -> (r: bool)
    ensures
        r == (name@.len() > 0 && forall|j: int| 0 <= j < name@.len() ==> is_word_char(
            #[trigger] name@[j],
        )),
{
    if name.len() == 0 {
        return false;
    }
    let mut i: usize = 0;
    while i < name.len()
        invariant
            i <= name@.len(),
            forall|j: int| 0 <= j < i ==> is_word_char(#[trigger] name@[j]),
        decreases name@.len() - i,
    {
        let c = name[i];
        if !(('a' <= c && c <= 'z') || ('A' <= c && c <= 'Z') || ('0' <= c && c <= '9') || c
            == '_') {
            assert(!is_word_char(name@[i as int]));
            return false;
        }
        i = i + 1;
    }
    true
}

/// The pattern set: an immutable collection of compiled patterns,
/// built once and shared read-only across extraction calls.
#[derive(Debug)]
pub struct PatternSet {
    patterns: Vec<Pattern>,
}

impl View for PatternSet {
    type V = Seq<PatternModel>;

    closed spec fn view(&self) -> Seq<PatternModel> {
        patterns_model(self.patterns@)
    }
}

impl PatternSet {
    /// Compiles a pattern set. A pattern whose attribute name is empty
    /// or no word fails to compile, which fails the whole set with the
    /// first offending pattern's index.
    pub fn new(patterns: Vec<Pattern>) -> (r: Result<PatternSet, XmlStructError>)
        ensures
            match r {
                Ok(ps) => ps@ == patterns_model(patterns@) && forall|i: int|
                    0 <= i < patterns@.len() ==> pattern_ok(#[trigger] patterns_model(patterns@)[i]),
                Err(e) => exists|i: int|
                    0 <= i < patterns@.len() && e@ == (ErrorModel::PatternCompilationModel {
                        index: i,
                    }) && !pattern_ok(#[trigger] patterns_model(patterns@)[i]),
            },
    {
        let mut i: usize = 0;
        while i < patterns.len()
            invariant
                i <= patterns@.len(),
                forall|j: int| 0 <= j < i ==> pattern_ok(#[trigger] patterns_model(patterns@)[j]),
            decreases patterns@.len() - i,
        {
            if !word_ok(&patterns[i].attr_name) {
                proof {
                    assert(patterns_model(patterns@)[i as int] == patterns@[i as int]@);
                    assert(!pattern_ok(patterns_model(patterns@)[i as int]));
                }
                return Err(XmlStructError::PatternCompilation { index: i });
            }
            proof {
                assert(patterns_model(patterns@)[i as int] == patterns@[i as int]@);
            }
            i = i + 1;
        }
        Ok(PatternSet { patterns })
    }

    /// The number of patterns.
    pub fn len(&self) -> (r: usize)
        ensures
            r == self@.len(),
    {
        self.patterns.len()
    }

    /// The field identifier of the pattern at `i`.
    pub fn field_id(&self, i: usize) -> (r: &String)
        requires
            i < self@.len(),
        ensures
            r@ == self@[i as int].field_id,
    {
        &self.patterns[i].field_id
    }
}

/// Compares the characters of `t` at `k` with `sub`.
fn match_at(t: &Vec<char>, sub: &Vec<char>, k: usize) -> (r: bool)
    requires
        k + sub@.len() <= t@.len(),
    ensures
        r == (t@.subrange(k as int, k + sub@.len()) == sub@),
{
    let tl = t.len();
    proof {
        assert(tl == t@.len());
    }
    let mut j: usize = 0;
    while j < sub.len()
        invariant
            j <= sub@.len(),
            k + sub@.len() <= t@.len(),
            t@.len() <= usize::MAX,
            forall|m: int| 0 <= m < j ==> t@[k + m] == sub@[m],
        decreases sub@.len() - j,
    {
        if t[k + j] != sub[j] {
            proof {
                assert(t@.subrange(k as int, k + sub@.len())[j as int] == t@[k + j]);
            }
            return false;
        }
        j = j + 1;
    }
    proof {
        assert(t@.subrange(k as int, k + sub@.len()) =~= sub@);
    }
    true
}

/// Decides whether `sub` occurs somewhere in `s`.
fn contains_chars(s: &Vec<char>, sub: &Vec<char>) -> (r: bool)
    ensures
        r == contains_seq(s@, sub@),
{
    if sub.len() > s.len() {
        return false;
    }
    if sub.len() == 0 {
        proof {
            assert(s@.subrange(0, 0 + sub@.len() as int) =~= sub@);
        }
        return true;
    }
    let mut k: usize = 0;
    while k <= s.len() - sub.len()
        invariant
            0 < sub@.len() <= s@.len(),
            k <= s@.len() - sub@.len() + 1,
            forall|m: int|
                0 <= m < k ==> #[trigger] s@.subrange(m, m + sub@.len()) != sub@,
        decreases s@.len() - sub@.len() + 1 - k,
    {
        if match_at(s, sub, k) {
            return true;
        }
        k = k + 1;
    }
    false
}

/// Scans `t` left from `i` to the start of the word run ending there.
fn run_start_at(t: &Vec<char>, i: usize) -> (r: usize)
    requires
        i <= t@.len(),
    ensures
        r == run_start(t@, i as int),
        r <= i,
{
    proof {
        lemma_run_start(t@, i as int);
    }
    let mut k: usize = i;
    while k > 0
        invariant
            k <= i <= t@.len(),
            run_start(t@, i as int) == run_start(t@, k as int),
        decreases k,
    {
        let c = t[k - 1];
        if !(('a' <= c && c <= 'z') || ('A' <= c && c <= 'Z') || ('0' <= c && c <= '9') || c
            == '_') {
            assert(!is_word_char(t@[k - 1]));
            return k;
        }
        k = k - 1;
    }
    k
}

/// Scans `s` from the end to the index past its trailing whitespace.
fn trim_end_at(s: &Vec<char>) -> (r: usize)
    ensures
        r == trim_end_idx(s@),
        r <= s@.len(),
{
    proof {
        lemma_trim_end_idx(s@);
        assert(s@.take(s@.len() as int) =~= s@);
    }
    let mut e: usize = s.len();
    while e > 0
        invariant
            e <= s@.len(),
            trim_end_idx(s@) == trim_end_idx(s@.take(e as int)),
        decreases e,
    {
        let c = s[e - 1];
        if !(c == ' ' || c == '\t' || c == '\n' || c == '\r') {
            proof {
                assert(s@.take(e as int).last() == s@[e - 1]);
            }
            return e;
        }
        e = e - 1;
        proof {
            assert(s@.take(e + 1).drop_last() =~= s@.take(e as int));
        }
    }
    0
}

/// Strips the leading and trailing whitespace of `s`.
fn trim(s: &Vec<char>) -> (r: Vec<char>)
    ensures
        r@ == trim_spec(s@),
{
    let e = trim_end_at(s);
    let b = skip_ws(s, 0);
    if b < e {
        copy_range(s, b, e)
    } else {
        let r: Vec<char> = Vec::new();
        proof {
            assert(r@ =~= trim_spec(s@));
        }
        r
    }
}

/// Decides whether the pattern accepts a match at `i`.
fn check_occurrence(t: &Vec<char>, p: &Pattern, i: usize) -> (r: bool)
    requires
        i < t@.len(),
    ensures
        r == valid_occurrence(t@, p@, i as int),
{
    let m = p.attr_name.len();
    if m > t.len() - i {
        return false;
    }
    if t.len() - (i + m) < 2 {
        return false;
    }
    if !match_at(t, &p.attr_name, i) {
        return false;
    }
    if t[i + m] != '=' || t[i + m + 1] != '"' {
        return false;
    }
    let vstart = i + m + 2;
    let e = find_char(t, vstart, '"');
    if e == t.len() {
        proof {
            assert(!(find_from(t@, i + p@.attr_name.len() + 2, '"') < t@.len()));
        }
        return false;
    }
    if p.excludes.len() > 0 {
        let rs = run_start_at(t, i);
        let full = copy_range(t, rs, i + m);
        if contains_chars(&full, &p.excludes) {
            return false;
        }
    }
    true
}

/// Finds the first match in `t` that the pattern accepts.
fn find_occurrence(t: &Vec<char>, p: &Pattern) -> (r: Option<usize>)
    ensures
        match r {
            Some(i) => find_occ_from(t@, p@, 0) == Some(i as int),
            None => find_occ_from(t@, p@, 0) is None,
        },
{
    let mut i: usize = 0;
    while i < t.len()
        invariant
            i <= t@.len(),
            find_occ_from(t@, p@, 0) == find_occ_from(t@, p@, i as int),
        decreases t@.len() - i,
    {
        if check_occurrence(t, p, i) {
            return Some(i);
        }
        i = i + 1;
    }
    None
}

/// A found occurrence is a valid one, within the input.
proof fn lemma_find_occ(t: Seq<char>, p: PatternModel, s: int)
    requires
        0 <= s <= t.len(),
    ensures
        match find_occ_from(t, p, s) {
            Some(i) => s <= i < t.len() && valid_occurrence(t, p, i),
            None => true,
        },
    decreases t.len() - s,
{
    if s < t.len() && !valid_occurrence(t, p, s) {
        lemma_find_occ(t, p, s + 1);
    }
}

impl PatternSet {
    /// Extracts one record from the input: each pattern's first valid
    /// match fills its field, quote-stripped and trimmed; a numeric
    /// coercion failure aborts the whole extraction; everything else is
    /// best effort.
    pub fn extract(&self, text: &Vec<char>) -> (r: Result<Record, XmlStructError>)
        ensures
            match r {
                Ok(rec) => pattern_extract_spec(self@, text@) == Ok::<_, ErrorModel>(rec@),
                Err(e) => pattern_extract_spec(self@, text@) == Err::<Seq<FieldValueModel>, _>(e@),
            },
    {
        let n = self.patterns.len();
        let mut values: Vec<FieldValue> = Vec::new();
        let mut j: usize = 0;
        while j < n
            invariant
                n == self@.len(),
                j <= n,
                record_model(values@) == pattern_defaults(self@).take(j as int),
            decreases n - j,
        {
            let v = match self.patterns[j].value_type {
                ValueType::Text => FieldValue::Text(String::new()),
                ValueType::UInt => FieldValue::UInt(0),
            };
            proof {
                assert(self@[j as int] == self.patterns@[j as int]@);
                assert(v@ == default_value(self@[j as int].value_type));
                assert(pattern_defaults(self@)[j as int] == default_value(
                    self@[j as int].value_type,
                ));
            }
            let ghost before = values@;
            values.push(v);
            j = j + 1;
            proof {
                assert(values@ =~= before.push(v));
                assert(record_model(before).len() == before.len());
                assert(record_model(values@) =~= pattern_defaults(self@).take(j as int));
            }
        }
        proof {
            assert(pattern_defaults(self@).take(n as int) =~= pattern_defaults(self@));
        }
        let mut j: usize = 0;
        while j < n
            invariant
                n == self@.len(),
                j <= n,
                record_model(values@).len() == n,
                pattern_extract_from(self@, 0, text@, pattern_defaults(self@))
                    == pattern_extract_from(self@, j as int, text@, record_model(values@)),
            decreases n - j,
        {
            let p = &self.patterns[j];
            proof {
                assert(self@[j as int] == self.patterns@[j as int]@);
            }
            match find_occurrence(text, p) {
                None => {
                    j = j + 1;
                },
                Some(i) => {
                    let tl = text.len();
                    let m = p.attr_name.len();
                    proof {
                        lemma_find_occ(text@, p@, 0);
                        lemma_find_from(text@, i + m + 2, '"');
                    }
                    let vstart = i + m + 2;
                    let e = find_char(text, vstart, '"');
                    let vraw = copy_range(text, vstart, e);
                    let v = trim(&vraw);
                    proof {
                        assert(vraw@ == raw_value(text@, p@.attr_name, i as int));
                        assert(v@ == trim_spec(raw_value(text@, p@.attr_name, i as int)));
                        assert(pattern_value(text@, self@[j as int]) == Some(v@));
                    }
                    match p.value_type {
                        ValueType::Text => {
                            let s = string_from_chars(&v);
                            let ghost rec0 = record_model(values@);
                            values[j] = FieldValue::Text(s);
                            proof {
                                assert(record_model(values@) =~= rec0.update(
                                    j as int,
                                    FieldValueModel::Text(v@),
                                ));
                            }
                            j = j + 1;
                        },
                        ValueType::UInt => {
                            match parse_u64(&v) {
                                Some(num) => {
                                    let ghost rec0 = record_model(values@);
                                    values[j] = FieldValue::UInt(num);
                                    proof {
                                        assert(record_model(values@) =~= rec0.update(
                                            j as int,
                                            FieldValueModel::UInt(num),
                                        ));
                                    }
                                    j = j + 1;
                                },
                                None => {
                                    let err = XmlStructError::TypeCoercion {
                                        field_id: p.field_id.clone(),
                                        text: string_from_chars(&v),
                                    };
                                    return Err(err);
                                },
                            }
                        },
                    }
                },
            }
        }
        let rec = Record { values };
        Ok(rec)
    }

    /// Extracts one record from raw XML text, by the pattern-matching
    /// strategy.
    pub fn extract_str(&self, xml: &str) -> (r: Result<Record, XmlStructError>)
        ensures
            match r {
                Ok(rec) => pattern_extract_spec(self@, xml@) == Ok::<_, ErrorModel>(rec@),
                Err(e) => pattern_extract_spec(self@, xml@) == Err::<Seq<FieldValueModel>, _>(e@),
            },
    {
        let chars = to_chars(xml);
        self.extract(&chars)
    }
}

} // verus!
